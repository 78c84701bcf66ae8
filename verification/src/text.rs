//! Lines of text addressed by byte offsets into their UTF-8 encoding.
//!
//! A `String` is seen through its sequence of chars (`s@`). The editor
//! addresses a line by byte offsets, as `String` does; the spec functions
//! here translate a byte offset into the index of the char that starts there.
use vstd::prelude::*;
use vstd::utf8::*;

verus! {

/// Number of bytes in the UTF-8 encoding of `c`.
pub open spec fn char_width(c: char) -> nat {
    let u = c as u32;
    if u < 0x80 {
        1
    } else if u < 0x800 {
        2
    } else if u < 0x10000 {
        3
    } else {
        4
    }
}

/// Number of bytes in the UTF-8 encoding of `s`.
pub open spec fn byte_len(s: Seq<char>) -> nat
    decreases s.len(),
{
    if s.len() == 0 {
        0
    } else {
        char_width(s[0]) + byte_len(s.drop_first())
    }
}

/// The index of the char whose encoding starts at byte `col` of `s`
/// (`s.len()` when `col` is the end of `s`); `None` when `col` does not
/// lie on a char boundary of `s`.
pub open spec fn char_index(s: Seq<char>, col: int) -> Option<nat>
    decreases s.len(),
{
    if col == 0 {
        Some(0)
    } else if col < 0 || s.len() == 0 {
        None
    } else {
        match char_index(s.drop_first(), col - char_width(s[0])) {
            Some(k) => Some(k + 1),
            None => None,
        }
    }
}

/// `col` lies on a char boundary of `s` (its end included).
pub open spec fn on_boundary(s: Seq<char>, col: int) -> bool {
    char_index(s, col) is Some
}

/// The index of the char at byte `col`; meaningful when `on_boundary(s, col)`.
pub open spec fn pos(s: Seq<char>, col: int) -> int {
    match char_index(s, col) {
        Some(k) => k as int,
        None => 0,
    }
}

/// Byte offset at which the char of index `k` starts.
pub open spec fn offset(s: Seq<char>, k: int) -> nat {
    byte_len(s.take(k))
}

pub proof fn lemma_char_width(c: char)
    ensures
        1 <= char_width(c) <= 4,
        char_width(c) == encode_scalar(c as u32).len(),
{
    char_is_scalar(c);
}

pub proof fn lemma_byte_len_concat(a: Seq<char>, b: Seq<char>)
    ensures
        byte_len(a + b) == byte_len(a) + byte_len(b),
    decreases a.len(),
{
    if a.len() == 0 {
        assert(a + b =~= b);
    } else {
        assert((a + b).drop_first() =~= a.drop_first() + b);
        lemma_byte_len_concat(a.drop_first(), b);
    }
}

pub proof fn lemma_byte_len_bounds(s: Seq<char>)
    ensures
        s.len() <= byte_len(s) <= 4 * s.len(),
    decreases s.len(),
{
    if s.len() > 0 {
        lemma_char_width(s[0]);
        lemma_byte_len_bounds(s.drop_first());
    }
}

pub proof fn lemma_byte_len_single(c: char)
    ensures
        byte_len(seq![c]) == char_width(c),
{
    assert(seq![c].drop_first() =~= Seq::<char>::empty());
    assert(byte_len(Seq::<char>::empty()) == 0);
    assert(seq![c][0] == c);
}

/// The byte length of a char sequence is the length of its UTF-8 encoding.
pub proof fn lemma_byte_len_encode(s: Seq<char>)
    ensures
        byte_len(s) == encode_utf8(s).len(),
    decreases s.len(),
{
    if s.len() > 0 {
        lemma_char_width(s[0]);
        lemma_byte_len_encode(s.drop_first());
    }
}

/// Offsets grow with the char index, by the width of each char.
pub proof fn lemma_offset_step(s: Seq<char>, k: int)
    requires
        0 <= k < s.len(),
    ensures
        offset(s, k + 1) == offset(s, k) + char_width(s[k]),
{
    assert(s.take(k + 1) =~= s.take(k) + seq![s[k]]);
    lemma_byte_len_concat(s.take(k), seq![s[k]]);
    lemma_byte_len_single(s[k]);
}

pub proof fn lemma_offset_mono(s: Seq<char>, j: int, k: int)
    requires
        0 <= j <= k <= s.len(),
    ensures
        offset(s, j) + (k - j) <= offset(s, k),
        j < k ==> offset(s, j) < offset(s, k),
    decreases k - j,
{
    if j < k {
        lemma_offset_mono(s, j, k - 1);
        lemma_offset_step(s, k - 1);
        lemma_char_width(s[k - 1]);
    }
}

pub proof fn lemma_offset_end(s: Seq<char>)
    ensures
        offset(s, s.len() as int) == byte_len(s),
{
    assert(s.take(s.len() as int) =~= s);
}

/// `char_index` finds exactly the char index whose offset is `col`.
pub proof fn lemma_char_index(s: Seq<char>, col: int)
    ensures
        char_index(s, col) matches Some(k) ==> k <= s.len() && offset(s, k as int) == col,
        (exists|k: int| 0 <= k <= s.len() && offset(s, k) == col) ==> char_index(s, col) is Some,
    decreases s.len(),
{
    if col == 0 {
        assert(s.take(0) =~= Seq::<char>::empty());
    } else if col < 0 || s.len() == 0 {
        if exists|k: int| 0 <= k <= s.len() && offset(s, k) == col {
            let k = choose|k: int| 0 <= k <= s.len() && offset(s, k) == col;
            assert(s.take(k) =~= Seq::<char>::empty());
        }
    } else {
        let t = s.drop_first();
        let w = char_width(s[0]);
        lemma_char_index(t, col - w);
        assert forall|k: int| 1 <= k <= s.len() implies offset(s, k) == w + offset(t, k - 1) by {
            assert(s.take(k) =~= seq![s[0]] + t.take(k - 1));
            lemma_byte_len_concat(seq![s[0]], t.take(k - 1));
            lemma_byte_len_single(s[0]);
        }
        if exists|k: int| 0 <= k <= s.len() && offset(s, k) == col {
            let k = choose|k: int| 0 <= k <= s.len() && offset(s, k) == col;
            assert(s.take(0) =~= Seq::<char>::empty());
            assert(k != 0);
            assert(offset(t, k - 1) == col - w);
        }
    }
}

/// The char at index `k` starts at byte `offset(s, k)`.
pub proof fn lemma_index_of_offset(s: Seq<char>, k: int)
    requires
        0 <= k <= s.len(),
    ensures
        char_index(s, offset(s, k) as int) == Some(k as nat),
{
    lemma_char_index(s, offset(s, k) as int);
    let j = char_index(s, offset(s, k) as int)->0 as int;
    if j < k {
        lemma_offset_mono(s, j, k);
    } else if j > k {
        lemma_offset_mono(s, k, j);
    }
}

/// Facts about a boundary: its index and offset agree, and it is in range.
pub proof fn lemma_boundary(s: Seq<char>, col: int)
    requires
        on_boundary(s, col),
    ensures
        0 <= pos(s, col) <= s.len(),
        offset(s, pos(s, col)) == col,
        0 <= col <= byte_len(s),
        pos(s, col) <= col,
        pos(s, col) < s.len() <==> col < byte_len(s),
{
    lemma_char_index(s, col);
    let k = pos(s, col);
    lemma_offset_end(s);
    lemma_offset_mono(s, 0, k);
    lemma_offset_mono(s, k, s.len() as int);
    assert(s.take(0) =~= Seq::<char>::empty());
}

/// Every sequence has boundaries at its start and its end.
pub proof fn lemma_ends_are_boundaries(s: Seq<char>)
    ensures
        char_index(s, 0) == Some(0nat),
        char_index(s, byte_len(s) as int) == Some(s.len()),
{
    lemma_offset_end(s);
    lemma_index_of_offset(s, s.len() as int);
}

/// A boundary of a prefix `a` stays a boundary, with the same index, in `a + b`.
pub proof fn lemma_boundary_prefix(a: Seq<char>, b: Seq<char>, k: int)
    requires
        0 <= k <= a.len(),
    ensures
        offset(a + b, k) == offset(a, k),
        char_index(a + b, offset(a, k) as int) == Some(k as nat),
{
    assert((a + b).take(k) =~= a.take(k));
    lemma_index_of_offset(a + b, k);
}

/// Boundaries of a suffix `b` shift by the byte length of `a` in `a + b`.
pub proof fn lemma_boundary_suffix(a: Seq<char>, b: Seq<char>, k: int)
    requires
        0 <= k <= b.len(),
    ensures
        offset(a + b, a.len() + k) == byte_len(a) + offset(b, k),
        char_index(a + b, (byte_len(a) + offset(b, k)) as int) == Some((a.len() + k) as nat),
{
    assert((a + b).take(a.len() + k) =~= a + b.take(k));
    lemma_byte_len_concat(a, b.take(k));
    lemma_index_of_offset(a + b, a.len() + k);
}

/// std's char-boundary test on the encoding agrees with `on_boundary`.
pub proof fn lemma_is_char_boundary(s: Seq<char>, col: int)
    ensures
        is_char_boundary(encode_utf8(s), col) <==> on_boundary(s, col),
    decreases s.len(),
{
    encode_utf8_valid_utf8(s);
    if col == 0 {
    } else if col < 0 {
    } else if s.len() == 0 {
    } else {
        let bytes = encode_utf8(s);
        encode_utf8_first_scalar(s);
        lemma_char_width(s[0]);
        lemma_byte_len_encode(s);
        assert(pop_first_scalar(bytes) =~= encode_utf8(s.drop_first()));
        lemma_is_char_boundary(s.drop_first(), col - char_width(s[0]));
        if col > bytes.len() {
            lemma_byte_len_encode(s);
            if on_boundary(s, col) {
                lemma_boundary(s, col);
            }
        }
    }
}


/// The first char boundary of `s` at or after byte `c` (for `c` up to the
/// byte length of `s`).
pub open spec fn snap(s: Seq<char>, c: int) -> int
    decreases s.len(),
{
    if c <= 0 || s.len() == 0 {
        0
    } else {
        char_width(s[0]) + snap(s.drop_first(), c - char_width(s[0]))
    }
}

/// `snap` is the least boundary at or after `c`.
pub proof fn lemma_snap(s: Seq<char>, c: int)
    requires
        0 <= c <= byte_len(s),
    ensures
        on_boundary(s, snap(s, c)),
        c <= snap(s, c) <= byte_len(s),
        forall|d: int| c <= d < snap(s, c) ==> !on_boundary(s, d),
    decreases s.len(),
{
    if c <= 0 || s.len() == 0 {
    } else {
        let w = char_width(s[0]);
        let t = s.drop_first();
        lemma_char_width(s[0]);
        if c - w <= 0 {
            assert(snap(t, c - w) == 0);
            assert(char_index(t, 0) == Some(0nat));
            assert forall|d: int| c <= d < snap(s, c) implies !on_boundary(s, d) by {
                assert(char_index(t, d - w) is None);
            }
        } else {
            lemma_snap(t, c - w);
            assert forall|d: int| c <= d < snap(s, c) implies !on_boundary(s, d) by {
                assert(!on_boundary(t, d - w));
            }
        }
    }
}

/// Longest line, in bytes, whose positions fit the editor's `i32` coordinates.
pub open spec fn line_fits(s: Seq<char>) -> bool {
    byte_len(s) <= i32::MAX
}

/// Byte offset where `s` first has `c` at or after char index `k`, as a char index.
pub open spec fn next_char_from(s: Seq<char>, k: int, c: char) -> Option<int>
    decreases s.len() - k,
{
    if k < 0 || k >= s.len() {
        None
    } else if s[k] == c {
        Some(k)
    } else {
        next_char_from(s, k + 1, c)
    }
}

/// The last char index below `k` at which `s` has `c`.
pub open spec fn prev_char_before(s: Seq<char>, k: int, c: char) -> Option<int>
    decreases k,
{
    if k <= 0 || k > s.len() {
        None
    } else if s[k - 1] == c {
        Some(k - 1)
    } else {
        prev_char_before(s, k - 1, c)
    }
}

pub proof fn lemma_next_char_from(s: Seq<char>, k: int, c: char)
    ensures
        next_char_from(s, k, c) matches Some(j) ==> k <= j < s.len() && s[j] == c,
    decreases s.len() - k,
{
    if k >= 0 && k < s.len() && s[k] != c {
        lemma_next_char_from(s, k + 1, c);
    }
}

pub proof fn lemma_prev_char_before(s: Seq<char>, k: int, c: char)
    ensures
        prev_char_before(s, k, c) matches Some(j) ==> 0 <= j < k <= s.len() && s[j] == c,
    decreases k,
{
    if k > 0 && k <= s.len() && s[k - 1] != c {
        lemma_prev_char_before(s, k - 1, c);
    }
}

/// The index of the first char at or after `i` that is not a space
/// (`s.len()` when there is none).
pub open spec fn skip_spaces(s: Seq<char>, i: int) -> int
    decreases s.len() - i,
{
    if i < 0 || i >= s.len() || s[i] != ' ' {
        i
    } else {
        skip_spaces(s, i + 1)
    }
}

/// Where the cursor goes after re-indenting line `s`: the byte of its first
/// char that is not a space, or 0 when it has none.
pub open spec fn indent_column(s: Seq<char>) -> int {
    if skip_spaces(s, 0) < s.len() {
        skip_spaces(s, 0)
    } else {
        0
    }
}

/// Four spaces: one level of indentation.
pub open spec fn indent() -> Seq<char> {
    seq![' ', ' ', ' ', ' ']
}

/// `s` begins with one level of indentation.
pub open spec fn is_indented(s: Seq<char>) -> bool {
    s.len() >= 4 && s.take(4) == indent()
}

/// Stepping over `i` chars that are all spaces takes `i` bytes.
proof fn lemma_spaces_offset(s: Seq<char>, i: int)
    requires
        0 <= i <= s.len(),
        forall|j: int| 0 <= j < i ==> s[j] == ' ',
    ensures
        offset(s, i) == i,
    decreases i,
{
    if i == 0 {
        assert(s.take(0) =~= Seq::<char>::empty());
    } else {
        lemma_spaces_offset(s, i - 1);
        lemma_offset_step(s, i - 1);
    }
}

/// Bytes of `c` in UTF-8, as `char::len_utf8` gives them.
pub fn width(c: char) -> (n: usize)
    ensures
        n == char_width(c),
{
    let u = c as u32;
    if u < 0x80 {
        1
    } else if u < 0x800 {
        2
    } else if u < 0x10000 {
        3
    } else {
        4
    }
}

/// Length of `s` in bytes.
pub fn byte_length(s: &str) -> (n: usize)
    ensures
        n == byte_len(s@),
{
    proof {
        lemma_byte_len_encode(s@);
    }
    let bytes = s.as_bytes();
    bytes.len()
}

/// The char index at byte `col` of `s`, if `col` is a char boundary.
pub fn locate(s: &str, col: usize) -> (r: Option<usize>)
    requires
        byte_len(s@) <= usize::MAX,
    ensures
        r is Some <==> on_boundary(s@, col as int),
        r matches Some(k) ==> k == pos(s@, col as int) && char_index(s@, col as int) == Some(
            k as nat,
        ),
{
    let n = s.unicode_len();
    let mut i: usize = 0;
    let mut off: usize = 0;
    proof {
        assert(s@.take(0) =~= Seq::<char>::empty());
        lemma_offset_end(s@);
    }
    while off < col && i < n
        invariant
            n == s@.len(),
            i <= n,
            off == offset(s@, i as int),
            byte_len(s@) <= usize::MAX,
            forall|j: int| 0 <= j < i ==> offset(s@, j) < col,
        decreases n - i,
    {
        let c = s.get_char(i);
        proof {
            lemma_offset_step(s@, i as int);
            lemma_offset_mono(s@, i as int + 1, n as int);
            lemma_offset_end(s@);
        }
        off = off + width(c);
        i = i + 1;
    }
    proof {
        lemma_char_index(s@, col as int);
    }
    if off == col {
        proof {
            lemma_index_of_offset(s@, i as int);
        }
        Some(i)
    } else {
        proof {
            if on_boundary(s@, col as int) {
                let k = char_index(s@, col as int)->0 as int;
                if k < i {
                } else if k == i {
                } else {
                    lemma_offset_mono(s@, i as int, k);
                }
            }
        }
        None
    }
}

/// Whether byte `col` of `s` lies on a char boundary.
pub fn is_boundary(s: &str, col: usize) -> (b: bool)
    ensures
        b == on_boundary(s@, col as int),
{
    proof {
        lemma_is_char_boundary(s@, col as int);
    }
    s.is_char_boundary(col)
}

/// The byte offset of the first `c` at or after byte `col`.
pub fn find_from(s: &str, col: usize, c: char) -> (r: Option<usize>)
    requires
        on_boundary(s@, col as int),
        byte_len(s@) <= usize::MAX,
    ensures
        r == (match next_char_from(s@, pos(s@, col as int), c) {
            Some(j) => Some(offset(s@, j) as usize),
            None => None::<usize>,
        }),
{
    let k = locate(s, col).unwrap();
    let n = s.unicode_len();
    let mut i = k;
    let mut off = col;
    proof {
        lemma_boundary(s@, col as int);
    }
    while i < n
        invariant
            k <= i <= n == s@.len(),
            k == pos(s@, col as int),
            off == offset(s@, i as int),
            byte_len(s@) <= usize::MAX,
            next_char_from(s@, i as int, c) == next_char_from(s@, k as int, c),
        decreases n - i,
    {
        if s.get_char(i) == c {
            return Some(off);
        }
        proof {
            lemma_offset_step(s@, i as int);
            lemma_offset_mono(s@, i as int + 1, n as int);
            lemma_offset_end(s@);
        }
        off = off + width(s.get_char(i));
        i = i + 1;
    }
    None
}

/// The byte offset of the last `c` before byte `col`.
pub fn rfind_before(s: &str, col: usize, c: char) -> (r: Option<usize>)
    requires
        on_boundary(s@, col as int),
        byte_len(s@) <= usize::MAX,
    ensures
        r == (match prev_char_before(s@, pos(s@, col as int), c) {
            Some(j) => Some(offset(s@, j) as usize),
            None => None::<usize>,
        }),
{
    let k = locate(s, col).unwrap();
    let mut i = k;
    let mut off = col;
    proof {
        lemma_boundary(s@, col as int);
    }
    while i > 0
        invariant
            i <= k <= s@.len(),
            k == pos(s@, col as int),
            off == offset(s@, i as int),
            prev_char_before(s@, i as int, c) == prev_char_before(s@, k as int, c),
        decreases i,
    {
        let ch = s.get_char(i - 1);
        proof {
            lemma_offset_step(s@, i - 1);
        }
        off = off - width(ch);
        if ch == c {
            return Some(off);
        }
        i = i - 1;
    }
    None
}

/// The byte of the first char of `s` that is not a space, or 0 if none is.
pub fn first_non_space(s: &str) -> (r: usize)
    ensures
        r == indent_column(s@),
{
    let n = s.unicode_len();
    let mut i: usize = 0;
    while i < n && s.get_char(i) == ' '
        invariant
            i <= n == s@.len(),
            skip_spaces(s@, i as int) == skip_spaces(s@, 0),
            forall|j: int| 0 <= j < i ==> s@[j] == ' ',
        decreases n - i,
    {
        i = i + 1;
    }
    if i < n {
        i
    } else {
        0
    }
}

/// Whether `s` begins with one level of indentation.
pub fn starts_with_indent(s: &str) -> (b: bool)
    ensures
        b == is_indented(s@),
{
    let n = s.unicode_len();
    let r = n >= 4 && s.get_char(0) == ' ' && s.get_char(1) == ' ' && s.get_char(2) == ' '
        && s.get_char(3) == ' ';
    proof {
        if n >= 4 {
            assert(r == (s@.take(4) =~= indent()));
        }
    }
    r
}

/// `String::insert`: per its documentation, inserts `ch` at byte position
/// `idx`, and panics unless `idx` lies on a char boundary.
#[verifier::external_body]
fn string_insert(s: &mut String, idx: usize, ch: char)
    requires
        on_boundary(old(s)@, idx as int),
    ensures
        final(s)@ == old(s)@.insert(pos(old(s)@, idx as int), ch),
{
    s.insert(idx, ch)
}

/// `String::remove`: per its documentation, removes and returns the char at
/// byte position `idx`, and panics unless a char starts there.
#[verifier::external_body]
fn string_remove(s: &mut String, idx: usize) -> (c: char)
    requires
        on_boundary(old(s)@, idx as int),
        pos(old(s)@, idx as int) < old(s)@.len(),
    ensures
        c == old(s)@[pos(old(s)@, idx as int)],
        final(s)@ == old(s)@.remove(pos(old(s)@, idx as int)),
{
    s.remove(idx)
}

/// `String::split_off`: per its documentation, keeps the bytes before `at`
/// and returns the rest; it panics unless `at` lies on a char boundary.
#[verifier::external_body]
fn string_split_off(s: &mut String, at: usize) -> (tail: String)
    requires
        on_boundary(old(s)@, at as int),
    ensures
        final(s)@ == old(s)@.take(pos(old(s)@, at as int)),
        tail@ == old(s)@.skip(pos(old(s)@, at as int)),
{
    s.split_off(at)
}

/// `String::push`: per its documentation, appends `ch` to the end.
#[verifier::external_body]
fn string_push(s: &mut String, ch: char)
    ensures
        final(s)@ == old(s)@.push(ch),
{
    s.push(ch)
}

/// `String::pop`: per its documentation, removes the last char and returns
/// it, or returns `None` when the string is empty.
#[verifier::external_body]
fn string_pop(s: &mut String) -> (r: Option<char>)
    ensures
        old(s)@.len() == 0 ==> r is None && final(s)@ == old(s)@,
        old(s)@.len() > 0 ==> r == Some(old(s)@.last()) && final(s)@ == old(s)@.drop_last(),
{
    s.pop()
}

/// Removes the last char of `s`, if any.
pub fn pop_char(s: &mut String) -> (r: Option<char>)
    ensures
        old(s)@.len() == 0 ==> r is None && final(s)@ == old(s)@,
        old(s)@.len() > 0 ==> r == Some(old(s)@.last()) && final(s)@ == old(s)@.drop_last(),
{
    string_pop(s)
}

/// Appends `c` to `s`.
pub fn push_char(s: &mut String, c: char)
    ensures
        final(s)@ == old(s)@.push(c),
{
    string_push(s, c)
}

/// Appends `t` to `s`.
pub fn push_text(s: &mut String, t: &str)
    ensures
        final(s)@ == old(s)@ + t@,
{
    s.append(t)
}

/// Inserts char `c` at byte `col`.
pub fn insert_char(s: &mut String, col: usize, c: char)
    requires
        on_boundary(old(s)@, col as int),
    ensures
        final(s)@ == old(s)@.insert(pos(old(s)@, col as int), c),
{
    string_insert(s, col, c)
}

/// Removes the char that starts at byte `col` and returns it.
pub fn remove_char(s: &mut String, col: usize) -> (c: char)
    requires
        on_boundary(old(s)@, col as int),
        pos(old(s)@, col as int) < old(s)@.len(),
    ensures
        c == old(s)@[pos(old(s)@, col as int)],
        final(s)@ == old(s)@.remove(pos(old(s)@, col as int)),
{
    string_remove(s, col)
}

/// Keeps the text before byte `col` and returns the text from `col` on.
pub fn split_at_byte(s: &mut String, col: usize) -> (tail: String)
    requires
        on_boundary(old(s)@, col as int),
    ensures
        final(s)@ == old(s)@.take(pos(old(s)@, col as int)),
        tail@ == old(s)@.skip(pos(old(s)@, col as int)),
{
    string_split_off(s, col)
}

/// Inserts `t` at byte `col`.
pub fn insert_text(s: &mut String, col: usize, t: &str)
    requires
        on_boundary(old(s)@, col as int),
    ensures
        final(s)@ == old(s)@.take(pos(old(s)@, col as int)) + t@ + old(s)@.skip(
            pos(old(s)@, col as int),
        ),
{
    let tail = string_split_off(s, col);
    s.append(t);
    s.append(tail.as_str());
}

/// Bytes `from <= to` both on boundaries map to char indices in the same order.
pub proof fn lemma_pos_order(s: Seq<char>, from: int, to: int)
    requires
        on_boundary(s, from),
        on_boundary(s, to),
        from <= to,
    ensures
        pos(s, from) <= pos(s, to),
{
    lemma_boundary(s, from);
    lemma_boundary(s, to);
    if pos(s, from) > pos(s, to) {
        lemma_offset_mono(s, pos(s, to), pos(s, from));
    }
}

/// Removes the bytes from `from` to `to` and returns them.
pub fn cut(s: &mut String, from: usize, to: usize) -> (removed: String)
    requires
        on_boundary(old(s)@, from as int),
        on_boundary(old(s)@, to as int),
        from <= to,
    ensures
        final(s)@ == old(s)@.take(pos(old(s)@, from as int)) + old(s)@.skip(
            pos(old(s)@, to as int),
        ),
        removed@ == old(s)@.subrange(pos(old(s)@, from as int), pos(old(s)@, to as int)),
{
    let ghost s0 = s@;
    let ghost kf = pos(s0, from as int);
    let ghost kt = pos(s0, to as int);
    proof {
        lemma_pos_order(s0, from as int, to as int);
        lemma_boundary(s0, from as int);
        lemma_boundary(s0, to as int);
        assert(s0 =~= s0.take(kt) + s0.skip(kt));
        assert(s0.take(kt).take(kf) =~= s0.take(kf));
        lemma_index_of_offset(s0.take(kt), kf);
    }
    let tail = string_split_off(s, to);
    let removed = string_split_off(s, from);
    s.append(tail.as_str());
    proof {
        assert(s0.take(kt).skip(kf) =~= s0.subrange(kf, kt));
    }
    removed
}

/// A copy of the bytes from `from` to `to`.
pub fn substring(s: &String, from: usize, to: usize) -> (r: String)
    requires
        on_boundary(s@, from as int),
        on_boundary(s@, to as int),
        from <= to,
    ensures
        r@ == s@.subrange(pos(s@, from as int), pos(s@, to as int)),
{
    let mut c = s.clone();
    cut(&mut c, from, to)
}

/// The char that ends at byte `col` and the byte offset where it starts;
/// `None` at the start of `s`.
pub fn char_before(s: &str, col: usize) -> (r: Option<(usize, char)>)
    requires
        on_boundary(s@, col as int),
        byte_len(s@) <= usize::MAX,
    ensures
        pos(s@, col as int) == 0 <==> r is None,
        r matches Some((start, c)) ==> c == s@[pos(s@, col as int) - 1] && start == offset(
            s@,
            pos(s@, col as int) - 1,
        ) && start + char_width(c) == col && on_boundary(s@, start as int) && pos(
            s@,
            start as int,
        ) == pos(s@, col as int) - 1,
{
    let k = locate(s, col);
    proof {
        lemma_boundary(s@, col as int);
    }
    match k {
        Some(k) => {
            if k == 0 {
                None
            } else {
                let c = s.get_char(k - 1);
                proof {
                    lemma_offset_step(s@, k - 1);
                    lemma_index_of_offset(s@, k - 1);
                }
                Some((col - width(c), c))
            }
        },
        None => None,
    }
}

/// The char that starts at byte `col`; `None` at the end of `s`.
pub fn char_after(s: &str, col: usize) -> (r: Option<char>)
    requires
        on_boundary(s@, col as int),
        byte_len(s@) <= usize::MAX,
    ensures
        pos(s@, col as int) == s@.len() <==> r is None,
        r matches Some(c) ==> c == s@[pos(s@, col as int)],
{
    let k = locate(s, col);
    proof {
        lemma_boundary(s@, col as int);
    }
    match k {
        Some(k) => {
            if k < s.unicode_len() {
                Some(s.get_char(k))
            } else {
                None
            }
        },
        None => None,
    }
}

} // verus!
