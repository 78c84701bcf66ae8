//! Syntax highlighting of a tab's lines with `syntect`, themed by `opaline`.
//!
//! The highlighter yields, for each line, the pieces of text to draw and the
//! colour of each; a piece without a colour is drawn in white.
use vstd::prelude::*;

use crate::document::no_newline;
use crate::helpers::{lines_of, Tab};
use crate::text::{pop_char, push_char};

verus! {

#[verifier::external_type_specification]
#[verifier::external_body]
pub struct ExSyntaxSet(syntect::parsing::SyntaxSet);

#[verifier::external_type_specification]
#[verifier::external_body]
pub struct ExSyntaxReference(syntect::parsing::SyntaxReference);

#[verifier::external_type_specification]
#[verifier::external_body]
pub struct ExSyntectTheme(syntect::highlighting::Theme);

#[verifier::external_type_specification]
#[verifier::external_body]
pub struct ExLineHighlighter<'a>(syntect::easy::HighlightLines<'a>);

#[verifier::external_type_specification]
#[verifier::external_body]
pub struct ExOpalineTheme(opaline::Theme);

/// `SyntaxSet::load_defaults_newlines` of `syntect`: the syntax definitions
/// bundled with the crate. Nothing is stated of the set.
#[verifier::external_body]
fn default_syntaxes() -> (set: syntect::parsing::SyntaxSet) {
    syntect::parsing::SyntaxSet::load_defaults_newlines()
}

/// `adapters::syntect::to_syntect_theme` of `opaline`: the `syntect` theme
/// that carries the colours of `theme`. Nothing is stated of it.
#[verifier::external_body]
fn syntect_theme_of(theme: &opaline::Theme) -> (t: syntect::highlighting::Theme) {
    opaline::adapters::syntect::to_syntect_theme(theme)
}

/// `SyntaxSet::find_syntax_for_file` of `syntect`, with a failed read of the
/// file counted as no syntax found. The result depends on the file's name
/// and, when its extension is not known, on the file's first line on disk,
/// so nothing is stated of it.
#[verifier::external_body]
fn syntax_for_file<'a>(
    set: &'a syntect::parsing::SyntaxSet,
    name: &str,
) -> (r: Option<&'a syntect::parsing::SyntaxReference>) {
    set.find_syntax_for_file(name).ok().flatten()
}

/// `SyntaxSet::find_syntax_by_name` of `syntect`: the syntax of `set` with
/// the name `name`, if it has one. Nothing is stated of the opaque set, so
/// nothing is stated of whether one is found.
#[verifier::external_body]
fn syntax_by_name<'a>(
    set: &'a syntect::parsing::SyntaxSet,
    name: &str,
) -> (r: Option<&'a syntect::parsing::SyntaxReference>) {
    set.find_syntax_by_name(name)
}

/// `HighlightLines::new` of `syntect`: a highlighter for the lines of one
/// file, in order. Nothing is stated of it.
#[verifier::external_body]
fn line_highlighter<'a>(
    syntax: &syntect::parsing::SyntaxReference,
    theme: &'a syntect::highlighting::Theme,
) -> (h: syntect::easy::HighlightLines<'a>) {
    syntect::easy::HighlightLines::new(syntax, theme)
}

/// The texts of highlighted pieces.
pub open spec fn raw_texts(raw: Seq<(u8, u8, u8, String)>) -> Seq<Seq<char>> {
    raw.map_values(|p: (u8, u8, u8, String)| p.3@)
}

/// The texts `ps` written one after the other.
pub open spec fn concat(ps: Seq<Seq<char>>) -> Seq<char>
    decreases ps.len(),
{
    if ps.len() == 0 {
        Seq::empty()
    } else {
        concat(ps.drop_last()) + ps.last()
    }
}

/// `HighlightLines::highlight_line` of `syntect`: the pieces of `line`
/// with the red, green and blue of each one's foreground, or `None` when
/// `syntect` reports an error. As `syntect` documents, the pieces' texts
/// written one after the other make `line`. Their split and colours, and
/// whether an error comes, depend on the lines highlighted before, which
/// `h` holds, and are not stated.
#[verifier::external_body]
fn highlight_pieces(
    h: &mut syntect::easy::HighlightLines,
    line: &str,
    set: &syntect::parsing::SyntaxSet,
) -> (r: Option<Vec<(u8, u8, u8, String)>>)
    ensures
        r matches Some(v) ==> concat(raw_texts(v@)) == line@,
{
    h.highlight_line(line, set).ok().map(
        |v: Vec<(syntect::highlighting::Style, &str)>| v.into_iter().map(
            |(style, text)| (style.foreground.r, style.foreground.g, style.foreground.b, text.to_string()),
        ).collect(),
    )
}

/// A piece of a line to draw, in the colour given as red, green and blue;
/// in white when there is none.
pub struct Piece {
    pub text: String,
    pub color: Option<(u8, u8, u8)>,
}

/// `s` without the line breaks at its end.
pub open spec fn trim_newlines(s: Seq<char>) -> Seq<char>
    decreases s.len(),
{
    if s.len() > 0 && s.last() == '\n' {
        trim_newlines(s.drop_last())
    } else {
        s
    }
}

/// `s` without the line breaks at its end.
pub fn trimmed(s: &str) -> (r: String)
    ensures
        r@ == trim_newlines(s@),
{
    let mut r = s.to_owned();
    loop
        invariant
            trim_newlines(r@) == trim_newlines(s@),
        ensures
            r@ == trim_newlines(s@),
        decreases r@.len(),
    {
        let ghost before = r@;
        match pop_char(&mut r) {
            None => {
                break;
            },
            Some(c) => {
                if c != '\n' {
                    push_char(&mut r, c);
                    proof {
                        assert(r@ =~= before);
                    }
                    break;
                }
            },
        }
    }
    r
}

/// The texts of the pieces of a line.
pub open spec fn texts(ps: Seq<Piece>) -> Seq<Seq<char>> {
    ps.map_values(|p: Piece| p.text@)
}

/// The pieces that highlighting gave for a line, each with its colour and
/// without line breaks at its end.
pub fn styled_line(raw: Vec<(u8, u8, u8, String)>) -> (r: Vec<Piece>)
    ensures
        r.len() == raw.len(),
        forall|j: int|
            0 <= j < r.len() ==> (#[trigger] r@[j]).text@ == trim_newlines(raw@[j].3@) && r@[j].color
                == Some((raw@[j].0, raw@[j].1, raw@[j].2)),
{
    let mut r: Vec<Piece> = Vec::new();
    let mut i: usize = 0;
    while i < raw.len()
        invariant
            i <= raw.len(),
            r.len() == i,
            forall|j: int|
                0 <= j < i ==> (#[trigger] r@[j]).text@ == trim_newlines(raw@[j].3@) && r@[j].color
                    == Some((raw@[j].0, raw@[j].1, raw@[j].2)),
        decreases raw.len() - i,
    {
        let (red, green, blue, ref text) = raw[i];
        r.push(Piece { text: trimmed(text.as_str()), color: Some((red, green, blue)) });
        i = i + 1;
    }
    r
}

/// The lines of a tab that has no file, each one piece drawn in white.
pub fn plain_lines(lines: &Vec<String>) -> (r: Vec<Option<Vec<Piece>>>)
    ensures
        plain(r@, lines_of(lines@)),
{
    let mut r: Vec<Option<Vec<Piece>>> = Vec::new();
    let mut i: usize = 0;
    while i < lines.len()
        invariant
            i <= lines.len(),
            r.len() == i,
            forall|k: int| 0 <= k < i ==> plain_line(#[trigger] r@[k], lines@[k]@),
        decreases lines.len() - i,
    {
        let mut line: Vec<Piece> = Vec::new();
        line.push(Piece { text: lines[i].clone(), color: None });
        r.push(Some(line));
        i = i + 1;
    }
    r
}

/// `n` lines that could not be highlighted.
fn failed_lines(n: usize) -> (r: Vec<Option<Vec<Piece>>>)
    ensures
        r.len() == n,
        forall|k: int| 0 <= k < n ==> (#[trigger] r@[k]) is None,
{
    let mut r: Vec<Option<Vec<Piece>>> = Vec::new();
    let mut i: usize = 0;
    while i < n
        invariant
            i <= n,
            r.len() == i,
            forall|k: int| 0 <= k < i ==> (#[trigger] r@[k]) is None,
        decreases n - i,
    {
        r.push(None);
        i = i + 1;
    }
    r
}

/// Highlights the lines of files by their syntax, in the colours of a theme.
pub struct Highlighter {
    syntax_set: syntect::parsing::SyntaxSet,
    syntect_theme: syntect::highlighting::Theme,
}

impl Highlighter {
    /// A highlighter with `syntect`'s bundled syntaxes and the colours of
    /// `theme`.
    pub fn new(theme: &opaline::Theme) -> Self {
        let syntax_set = default_syntaxes();
        let syntect_theme = syntect_theme_of(theme);
        Highlighter { syntax_set, syntect_theme }
    }

    /// The pieces to draw for each line of `tab`, or `None` for a line that
    /// `syntect` could not highlight. A tab without a file name shows each
    /// line as one white piece. Otherwise the file's syntax, or plain text
    /// when none is found, colours the lines, read in order: every piece has
    /// a colour and no line break at its end, and the pieces of a line
    /// without line breaks make up that line. Where the syntax set has no
    /// plain-text syntax to fall back on, no line can be highlighted.
    pub fn highlight(&self, tab: &Tab) -> (r: Vec<Option<Vec<Piece>>>)
        ensures
            tab.file_name@.len() == 0 ==> plain(r@, tab.text()),
            tab.file_name@.len() > 0 ==> coloured(r@, tab.text()),
    {
        if tab.file_name.as_str().unicode_len() == 0 {
            return plain_lines(&tab.input_box);
        }
        match syntax_for_file(&self.syntax_set, tab.file_name.as_str()) {
            Some(found) => self.coloured_lines(found, tab),
            None => match syntax_by_name(&self.syntax_set, "Plain Text") {
                Some(plain_syntax) => self.coloured_lines(plain_syntax, tab),
                None => failed_lines(tab.input_box.len()),
            },
        }
    }

    /// The lines of `tab`, coloured by `syntax`, read in order.
    fn coloured_lines(&self, syntax: &syntect::parsing::SyntaxReference, tab: &Tab) -> (r: Vec<
        Option<Vec<Piece>>,
    >)
        ensures
            coloured(r@, tab.text()),
    {
        let mut h = line_highlighter(syntax, &self.syntect_theme);
        let mut r: Vec<Option<Vec<Piece>>> = Vec::new();
        let mut i: usize = 0;
        while i < tab.input_box.len()
            invariant
                i <= tab.input_box.len(),
                r.len() == i,
                forall|k: int| 0 <= k < i ==> coloured_line(#[trigger] r@[k], tab.text()[k]),
            decreases tab.input_box.len() - i,
        {
            let l = tab.input_box[i].as_str();
            let piece_line = match highlight_pieces(&mut h, l, &self.syntax_set) {
                None => None,
                Some(raw) => {
                    let line = styled_line(raw);
                    proof {
                        assert forall|j: int| 0 <= j < line@.len() implies trim_newlines(
                            (#[trigger] line@[j]).text@,
                        ) == line@[j].text@ by {
                            lemma_trim_idempotent(raw@[j].3@);
                        }
                        if no_newline(l@) {
                            lemma_concat_no_newline(raw_texts(raw@));
                            assert forall|j: int| 0 <= j < line@.len() implies (#[trigger] texts(
                                line@,
                            )[j]) == raw_texts(raw@)[j] by {
                                assert(raw_texts(raw@)[j] == raw@[j].3@);
                                lemma_trim_plain(raw@[j].3@);
                            }
                            assert(texts(line@) =~= raw_texts(raw@));
                        }
                    }
                    Some(line)
                },
            };
            proof {
                assert(l@ == tab.text()[i as int]);
            }
            r.push(piece_line);
            i = i + 1;
        }
        r
    }
}

/// Line `line` as one white piece.
pub open spec fn plain_line(p: Option<Vec<Piece>>, line: Seq<char>) -> bool {
    &&& p is Some
    &&& p.unwrap()@.len() == 1
    &&& p.unwrap()@[0].text@ == line
    &&& p.unwrap()@[0].color is None
}

/// Each line of `text` as one white piece.
pub open spec fn plain(r: Seq<Option<Vec<Piece>>>, text: Seq<Seq<char>>) -> bool {
    &&& r.len() == text.len()
    &&& forall|i: int| 0 <= i < r.len() ==> plain_line(#[trigger] r[i], text[i])
}

/// The pieces of `line`, unless highlighting it failed: every piece has a
/// colour and no line break at its end, and when `line` has no line break
/// the pieces make it up.
pub open spec fn coloured_line(p: Option<Vec<Piece>>, line: Seq<char>) -> bool {
    p matches Some(ps) ==> {
        &&& forall|j: int|
            0 <= j < ps@.len() ==> (#[trigger] ps@[j]).color is Some && trim_newlines(
                ps@[j].text@,
            ) == ps@[j].text@
        &&& no_newline(line) ==> concat(texts(ps@)) == line
    }
}

/// One entry for each line of `text`, each its coloured pieces unless
/// highlighting that line failed.
pub open spec fn coloured(r: Seq<Option<Vec<Piece>>>, text: Seq<Seq<char>>) -> bool {
    &&& r.len() == text.len()
    &&& forall|i: int| 0 <= i < r.len() ==> coloured_line(#[trigger] r[i], text[i])
}

/// Texts written one after the other hold no line break only when none of
/// them does.
pub proof fn lemma_concat_no_newline(ps: Seq<Seq<char>>)
    requires
        no_newline(concat(ps)),
    ensures
        forall|j: int| 0 <= j < ps.len() ==> no_newline(#[trigger] ps[j]),
    decreases ps.len(),
{
    if ps.len() > 0 {
        let init = ps.drop_last();
        let c = concat(init);
        assert forall|i: int| 0 <= i < c.len() implies c[i] != '\n' by {
            assert(concat(ps)[i] == c[i]);
        }
        assert forall|i: int| 0 <= i < ps.last().len() implies ps.last()[i] != '\n' by {
            assert(concat(ps)[c.len() + i] == ps.last()[i]);
        }
        lemma_concat_no_newline(init);
        assert forall|j: int| 0 <= j < ps.len() implies no_newline(#[trigger] ps[j]) by {
            if j < ps.len() - 1 {
                assert(ps[j] == init[j]);
            }
        }
    }
}

/// A text without line breaks is its own trimmed text.
pub proof fn lemma_trim_plain(s: Seq<char>)
    requires
        no_newline(s),
    ensures
        trim_newlines(s) == s,
{
    if s.len() > 0 {
        assert(s[s.len() - 1] != '\n');
    }
}

/// Trimming twice trims no more than once.
pub proof fn lemma_trim_idempotent(s: Seq<char>)
    ensures
        trim_newlines(trim_newlines(s)) == trim_newlines(s),
    decreases s.len(),
{
    if s.len() > 0 && s.last() == '\n' {
        lemma_trim_idempotent(s.drop_last());
    }
}

} // verus!
