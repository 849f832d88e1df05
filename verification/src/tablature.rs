//! Tablature: lines of text in which some words are chords.

use vstd::prelude::*;
use vstd::string::StringExecFns;
use vstd::string::StrSliceExecFns;
use vstd::utf8::encode_utf8;
use vstd::utf8::encode_scalar;
use crate::chord::Chord;
use crate::chord::chord_named;
use crate::text::chars_of;

verus! {

/// Whether `c` parts the words of a line: a space, a tab, a carriage return
/// or a line feed.
pub open spec fn is_blank(c: char) -> bool {
    c == ' ' || c == '\t' || c == '\r' || c == '\n'
}

/// Whether `c` is white space as Unicode defines it.
pub open spec fn is_white(c: char) -> bool {
    let u = c as u32;
    (0x09 <= u <= 0x0d) || u == 0x20 || u == 0x85 || u == 0xa0 || u == 0x1680 || (0x2000 <= u
        <= 0x200a) || u == 0x2028 || u == 0x2029 || u == 0x202f || u == 0x205f || u == 0x3000
}

/// How many bytes the UTF-8 form of `s` has.
pub open spec fn byte_length(s: Seq<char>) -> nat {
    encode_utf8(s).len()
}

/// The UTF-8 form of two texts in a row is the form of the first and then
/// the form of the second; a character takes one byte at least.
pub proof fn bytes_add_up(a: Seq<char>, b: Seq<char>)
    ensures
        byte_length(a + b) == byte_length(a) + byte_length(b),
        a.len() <= byte_length(a),
    decreases a.len(),
{
    if a.len() == 0 {
        assert(a + b =~= b);
    } else {
        bytes_add_up(a.drop_first(), b);
        assert((a + b).drop_first() =~= a.drop_first() + b);
        assert((a + b)[0] == a[0]);
        assert(encode_scalar(a[0] as u32).len() >= 1);
    }
}

/// How many bytes the UTF-8 form of a string has.
pub fn byte_count(s: &str) -> (r: usize)
    ensures
        r == byte_length(s@),
{
    s.as_bytes().len()
}

/// Whether `c` parts the words of a line.
pub fn parts_words(c: char) -> (r: bool)
    ensures
        r == is_blank(c),
{
    c == ' ' || c == '\t' || c == '\r' || c == '\n'
}

/// Whether `c` is white space as Unicode defines it.
pub fn is_white_space(c: char) -> (r: bool)
    ensures
        r == is_white(c),
{
    let u: u32 = c as u32;
    (0x09 <= u && u <= 0x0d) || u == 0x20 || u == 0x85 || u == 0xa0 || u == 0x1680 || (0x2000 <= u
        && u <= 0x200a) || u == 0x2028 || u == 0x2029 || u == 0x202f || u == 0x205f || u == 0x3000
}

/// Where the run of characters that begins before `i` ends: at the first
/// position from `i` on whose character is blank where `blank` is false, or
/// is not blank where `blank` is true, and at the end where there is none.
pub open spec fn run_end(text: Seq<char>, i: int, blank: bool) -> int
    decreases text.len() - i,
{
    if i < 0 || i >= text.len() || is_blank(text[i]) != blank {
        i
    } else {
        run_end(text, i + 1, blank)
    }
}

/// The tokens of `text` from position `i` on: the longest runs of blank
/// characters and the longest runs of other characters, in their order. A
/// run ends after its start and within the text, as `run_end_is_within`
/// shows, so the inner test always holds; it is what shows that the
/// definition ends.
pub open spec fn tokens_from(text: Seq<char>, i: int) -> Seq<Seq<char>>
    decreases text.len() - i,
{
    if i < 0 || i >= text.len() {
        Seq::empty()
    } else {
        let end = run_end(text, i + 1, is_blank(text[i]));
        if i < end <= text.len() {
            seq![text.subrange(i, end)] + tokens_from(text, end)
        } else {
            Seq::empty()
        }
    }
}

/// The tokens of `text`.
pub open spec fn tokens_of(text: Seq<char>) -> Seq<Seq<char>> {
    tokens_from(text, 0)
}

/// Whether a token is a word: it is not made of blank characters.
pub open spec fn is_word(token: Seq<char>) -> bool {
    token.len() > 0 && !is_blank(token[0])
}

/// A run ends after its start and within the text.
pub proof fn run_end_is_within(text: Seq<char>, i: int, blank: bool)
    requires
        0 <= i <= text.len(),
    ensures
        i <= run_end(text, i, blank) <= text.len(),
    decreases text.len() - i,
{
    if i < text.len() && is_blank(text[i]) == blank {
        run_end_is_within(text, i + 1, blank);
    }
}

/// A piece of a line: a run of blank characters, or a word.
#[derive(Debug, PartialEq, Eq)]
pub enum Token {
    Whitespace(String),
    Text(String),
}

impl Token {
    /// The characters of the token.
    pub open spec fn spec_text(self) -> Seq<char> {
        match self {
            Token::Whitespace(text) => text@,
            Token::Text(text) => text@,
        }
    }
}

/// Whether `tokens` are the tokens `texts`, each of its kind.
pub open spec fn tokens_show(tokens: Seq<Token>, texts: Seq<Seq<char>>) -> bool {
    &&& tokens.len() == texts.len()
    &&& forall|i: int|
        0 <= i < tokens.len() ==> (#[trigger] tokens[i]).spec_text() == texts[i] && (tokens[i]
            is Text) == is_word(texts[i])
}

/// Cuts a line into its tokens.
pub fn tokenize(source: &str) -> (r: Vec<Token>)
    ensures
        tokens_show(r@, tokens_of(source@)),
{
    let chars: Vec<char> = chars_of(source);
    let n: usize = chars.len();
    let mut tokens: Vec<Token> = Vec::new();
    let ghost mut done: Seq<Seq<char>> = Seq::empty();
    let mut start: usize = 0;
    while start < n
        invariant
            start <= n,
            n == chars@.len(),
            chars@ == source@,
            tokens_show(tokens@, done),
            done + tokens_from(chars@, start as int) == tokens_of(chars@),
        decreases n - start,
    {
        let blank: bool = parts_words(chars[start]);
        let mut end: usize = start + 1;
        while end < n && parts_words(chars[end]) == blank
            invariant
                start < end <= n,
                n == chars@.len(),
                run_end(chars@, start + 1, blank) == run_end(chars@, end as int, blank),
            decreases n - end,
        {
            end = end + 1;
        }
        let piece: String = String::from_str(source.substring_char(start, end));
        let ghost text = chars@.subrange(start as int, end as int);
        let ghost rest = tokens_from(chars@, end as int);
        assert(text[0] == chars@[start as int]);
        let token: Token = if blank {
            Token::Whitespace(piece)
        } else {
            Token::Text(piece)
        };
        let ghost before = tokens@;
        tokens.push(token);
        proof {
            assert((done + seq![text]) + rest =~= done + (seq![text] + rest));
            assert forall|i: int| 0 <= i < tokens@.len() implies (#[trigger] tokens@[i]).spec_text()
                == done.push(text)[i] && (tokens@[i] is Text) == is_word(done.push(text)[i]) by {
                if i < before.len() {
                    assert(tokens@[i] == before[i]);
                }
            }
            done = done.push(text);
            assert(done =~= done.drop_last() + seq![text]);
        }
        start = end;
    }
    assert(done + Seq::<Seq<char>>::empty() =~= done);
    tokens
}

/// What a piece of a line is: text, or a chord as it was written.
#[derive(Debug, PartialEq, Eq)]
pub enum Comp {
    Text(String),
    Chord { chord: Chord, original_text: String },
}

/// A piece of a line and the position at which it begins.
#[derive(Debug, PartialEq, Eq)]
pub struct LineBit {
    pub comp: Comp,
    pub position: usize,
}

/// A line of tablature: its pieces in their order.
pub type Line = Vec<LineBit>;

/// What a piece of a line is, as plain values.
pub enum CompView {
    Text(Seq<char>),
    Chord { chord: Chord, original_text: Seq<char> },
}

/// A piece of a line, as plain values.
pub struct LineBitView {
    pub comp: CompView,
    pub position: int,
}

impl View for Comp {
    type V = CompView;

    open spec fn view(&self) -> CompView {
        match self {
            Comp::Text(text) => CompView::Text(text@),
            Comp::Chord { chord, original_text } => CompView::Chord {
                chord: *chord,
                original_text: original_text@,
            },
        }
    }
}

impl View for LineBit {
    type V = LineBitView;

    open spec fn view(&self) -> LineBitView {
        LineBitView { comp: self.comp@, position: self.position as int }
    }
}

/// The pieces of a line, as plain values.
pub open spec fn bits_of(line: Seq<LineBit>) -> Seq<LineBitView> {
    line.map_values(|bit: LineBit| bit@)
}

/// How many characters of `s` from position `i` on are white space, before
/// the first that is not.
pub open spec fn white_from(s: Seq<char>, i: int) -> int
    decreases s.len() - i,
{
    if i < 0 || i >= s.len() || !is_white(s[i]) {
        0
    } else {
        1 + white_from(s, i + 1)
    }
}

/// How many of the first `n` characters of `s` are white space, after the
/// last that is not.
pub open spec fn white_upto(s: Seq<char>, n: int) -> int
    decreases n,
{
    if n <= 0 || n > s.len() || !is_white(s[n - 1]) {
        0
    } else {
        1 + white_upto(s, n - 1)
    }
}

/// `s` without the white space at its start and at its end.
pub open spec fn trimmed(s: Seq<char>) -> Seq<char> {
    if white_from(s, 0) >= s.len() {
        Seq::empty()
    } else {
        s.subrange(white_from(s, 0), s.len() - white_upto(s, s.len() as int))
    }
}

/// The white space at the start of a text is within the text.
pub proof fn white_from_is_within(s: Seq<char>, i: int)
    requires
        0 <= i <= s.len(),
    ensures
        0 <= white_from(s, i) <= s.len() - i,
        i + white_from(s, i) < s.len() ==> !is_white(s[i + white_from(s, i)]),
    decreases s.len() - i,
{
    if i < s.len() && is_white(s[i]) {
        white_from_is_within(s, i + 1);
    }
}

/// The white space at the end of a text that holds another character ends
/// after that character.
pub proof fn white_upto_is_within(s: Seq<char>, n: int, k: int)
    requires
        0 <= k < n <= s.len(),
        !is_white(s[k]),
    ensures
        0 <= white_upto(s, n) < n - k,
    decreases n,
{
    if is_white(s[n - 1]) {
        white_upto_is_within(s, n - 1, k);
    }
}

/// How far a line has been read: the pieces found, the text gathered since
/// the last piece, and the position at which that text begins.
pub struct Scan {
    pub bits: Seq<LineBitView>,
    pub pending: Seq<char>,
    pub position: int,
}

/// The scan after the gathered text has been turned into a piece. The piece
/// is the text without the white space around it, at the position of the
/// text plus one for each white character at its start; there is none where
/// the text is all white space. The position moves on by the bytes of the
/// text.
pub open spec fn flushed(scan: Scan) -> Scan {
    let text = trimmed(scan.pending);
    Scan {
        bits: if text.len() > 0 {
            scan.bits.push(
                LineBitView {
                    comp: CompView::Text(text),
                    position: scan.position + white_from(scan.pending, 0),
                },
            )
        } else {
            scan.bits
        },
        pending: Seq::empty(),
        position: scan.position + byte_length(scan.pending),
    }
}

/// The scan after one more token. A word that writes a chord ends the
/// gathered text and becomes a piece of its own; any other token is gathered.
pub open spec fn stepped(scan: Scan, token: Seq<char>) -> Scan {
    if is_word(token) && chord_named(token) is Some {
        let before = flushed(scan);
        Scan {
            bits: before.bits.push(
                LineBitView {
                    comp: CompView::Chord {
                        chord: chord_named(token).unwrap(),
                        original_text: token,
                    },
                    position: before.position,
                },
            ),
            pending: Seq::empty(),
            position: before.position + byte_length(token),
        }
    } else {
        Scan { bits: scan.bits, pending: scan.pending + token, position: scan.position }
    }
}

/// The scan after the first `n` of `tokens`.
pub open spec fn scanned(tokens: Seq<Seq<char>>, n: int) -> Scan
    decreases n,
{
    if n <= 0 {
        Scan { bits: Seq::empty(), pending: Seq::empty(), position: 0 }
    } else {
        stepped(scanned(tokens, n - 1), tokens[n - 1])
    }
}

/// The pieces of a line: its chords, and the text between them.
pub open spec fn line_bits(text: Seq<char>) -> Seq<LineBitView> {
    flushed(scanned(tokens_of(text), tokens_of(text).len() as int)).bits
}

/// The first `n` tokens in a row.
pub open spec fn flat(tokens: Seq<Seq<char>>, n: int) -> Seq<char>
    decreases n,
{
    if n <= 0 {
        Seq::empty()
    } else {
        flat(tokens, n - 1) + tokens[n - 1]
    }
}

/// A scan has read as many bytes as its tokens hold: the gathered text ends
/// where the tokens read so far end.
pub proof fn scan_keeps_count(tokens: Seq<Seq<char>>, n: int)
    requires
        0 <= n <= tokens.len(),
    ensures
        scanned(tokens, n).position >= 0,
        scanned(tokens, n).position + byte_length(scanned(tokens, n).pending) == byte_length(
            flat(tokens, n),
        ),
    decreases n,
{
    if n > 0 {
        scan_keeps_count(tokens, n - 1);
        let before = scanned(tokens, n - 1);
        bytes_add_up(flat(tokens, n - 1), tokens[n - 1]);
        bytes_add_up(before.pending, tokens[n - 1]);
    }
}

/// The tokens of a text, in a row, are the text from the first token on.
pub proof fn tokens_make_the_text(text: Seq<char>, i: int)
    requires
        0 <= i <= text.len(),
    ensures
        flat(tokens_from(text, i), tokens_from(text, i).len() as int) == text.subrange(
            i,
            text.len() as int,
        ),
    decreases text.len() - i,
{
    let tokens = tokens_from(text, i);
    if i >= text.len() {
        assert(text.subrange(i, text.len() as int) =~= Seq::empty());
    } else {
        let end = run_end(text, i + 1, is_blank(text[i]));
        run_end_is_within(text, i + 1, is_blank(text[i]));
        tokens_make_the_text(text, end);
        let head = text.subrange(i, end);
        let rest = tokens_from(text, end);
        assert(tokens =~= seq![head] + rest);
        flat_of_cons(head, rest, rest.len() as int);
        assert(head + text.subrange(end, text.len() as int) =~= text.subrange(
            i,
            text.len() as int,
        ));
    }
}

/// The tokens after a first one, in a row, follow that first one.
pub proof fn flat_of_cons(head: Seq<char>, rest: Seq<Seq<char>>, n: int)
    requires
        0 <= n <= rest.len(),
    ensures
        flat(seq![head] + rest, n + 1) == head + flat(rest, n),
    decreases n,
{
    let all = seq![head] + rest;
    if n == 0 {
        assert(flat(all, 0) =~= Seq::empty());
        assert(all[0] == head);
        assert(flat(all, 1) =~= head);
        assert(head + flat(rest, 0) =~= head);
    } else {
        flat_of_cons(head, rest, n - 1);
        assert(all[n] == rest[n - 1]);
        assert((head + flat(rest, n - 1)) + rest[n - 1] =~= head + (flat(rest, n - 1) + rest[n
            - 1]));
    }
}

/// The tokens read so far hold no more bytes than all the tokens.
pub proof fn flat_grows(tokens: Seq<Seq<char>>, n: int, m: int)
    requires
        0 <= n <= m <= tokens.len(),
    ensures
        byte_length(flat(tokens, n)) <= byte_length(flat(tokens, m)),
    decreases m - n,
{
    if n < m {
        flat_grows(tokens, n, m - 1);
        bytes_add_up(flat(tokens, m - 1), tokens[m - 1]);
    }
}

/// The scan that a line, the gathered text and a position stand for.
pub open spec fn scan_of(line: Seq<LineBit>, pending: Seq<char>, position: usize) -> Scan {
    Scan { bits: bits_of(line), pending, position: position as int }
}

/// Turns the gathered text into a piece of the line, where it holds more
/// than white space, and moves the position past it.
pub fn push_text(current_text: &mut String, line: &mut Vec<LineBit>, position: &mut usize)
    requires
        *old(position) + byte_length(old(current_text)@) <= usize::MAX,
    ensures
        scan_of(final(line)@, final(current_text)@, *final(position)) == flushed(
            scan_of(old(line)@, old(current_text)@, *old(position)),
        ),
{
    let ghost pending = current_text@;
    let ghost before = line@;
    let chars: Vec<char> = chars_of(current_text.as_str());
    let n: usize = chars.len();
    let mut lead: usize = 0;
    while lead < n && is_white_space(chars[lead])
        invariant
            lead <= n,
            n == chars@.len(),
            white_from(chars@, 0) == lead + white_from(chars@, lead as int),
        decreases n - lead,
    {
        lead = lead + 1;
    }
    proof {
        bytes_add_up(pending, Seq::empty());
    }
    if lead < n {
        let mut trail: usize = 0;
        while is_white_space(chars[n - 1 - trail])
            invariant
                lead < n,
                trail < n - lead,
                n == chars@.len(),
                !is_white(chars@[lead as int]),
                white_upto(chars@, n as int) == trail + white_upto(chars@, n - trail),
            decreases n - trail,
        {
            proof {
                white_upto_is_within(chars@, n - trail, lead as int);
            }
            trail = trail + 1;
        }
        let text: String = String::from_str(current_text.as_str().substring_char(lead, n - trail));
        line.push(LineBit { comp: Comp::Text(text), position: *position + lead });
        assert(bits_of(line@) =~= bits_of(before).push(
            LineBitView {
                comp: CompView::Text(trimmed(pending)),
                position: *position + white_from(pending, 0),
            },
        ));
    }
    *position = *position + byte_count(current_text.as_str());
    *current_text = String::new();
}

/// Reads one line: its chords, and the text between them.
pub fn parse_line(source: &str) -> (r: Vec<LineBit>)
    ensures
        bits_of(r@) == line_bits(source@),
{
    let tokens: Vec<Token> = tokenize(source);
    let ghost texts = tokens_of(source@);
    let mut position: usize = 0;
    let mut line: Vec<LineBit> = Vec::new();
    let mut current_text: String = String::new();
    let mut i: usize = 0;
    let limit: usize = byte_count(source);
    proof {
        tokens_make_the_text(source@, 0);
        assert(source@.subrange(0, source@.len() as int) =~= source@);
        assert(bits_of(line@) =~= Seq::empty());
    }
    while i < tokens.len()
        invariant
            i <= tokens@.len(),
            tokens_show(tokens@, texts),
            limit == byte_length(flat(texts, texts.len() as int)),
            scan_of(line@, current_text@, position) == scanned(texts, i as int),
        decreases tokens@.len() - i,
    {
        proof {
            scan_keeps_count(texts, i as int);
            scan_keeps_count(texts, i + 1);
            flat_grows(texts, i as int, texts.len() as int);
            flat_grows(texts, i + 1, texts.len() as int);
            bytes_add_up(current_text@, texts[i as int]);
        }
        match &tokens[i] {
            Token::Whitespace(text) => {
                current_text.append(text.as_str());
            },
            Token::Text(text) => {
                if let Some(chord) = Chord::parse(text.as_str()) {
                    push_text(&mut current_text, &mut line, &mut position);
                    let ghost found = line@;
                    line.push(
                        LineBit {
                            comp: Comp::Chord { chord, original_text: text.clone() },
                            position,
                        },
                    );
                    assert(bits_of(line@) =~= bits_of(found).push(
                        LineBitView {
                            comp: CompView::Chord { chord, original_text: text@ },
                            position: position as int,
                        },
                    ));
                    position = position + byte_count(text.as_str());
                } else {
                    current_text.append(text.as_str());
                }
            },
        }
        i = i + 1;
    }
    proof {
        scan_keeps_count(texts, texts.len() as int);
    }
    push_text(&mut current_text, &mut line, &mut position);
    line
}

/// The position of the first line feed of `text` at or after `i`, and the
/// length of `text` where there is none.
pub open spec fn line_end(text: Seq<char>, i: int) -> int
    decreases text.len() - i,
{
    if i < 0 || i >= text.len() || text[i] == '\n' {
        i
    } else {
        line_end(text, i + 1)
    }
}

/// `line` without the carriage return at its end, where it has one.
pub open spec fn without_return(line: Seq<char>) -> Seq<char> {
    if line.len() > 0 && line.last() == '\r' {
        line.drop_last()
    } else {
        line
    }
}

/// The lines of `text` from position `i` on. A line ends at a line feed,
/// which is not part of it, nor is a carriage return just before that line
/// feed. What stands after the last line feed is a line if it is not empty.
pub open spec fn lines_from(text: Seq<char>, i: int) -> Seq<Seq<char>>
    decreases text.len() - i,
{
    if i < 0 || i >= text.len() {
        Seq::empty()
    } else {
        let end = line_end(text, i);
        if i <= end < text.len() {
            seq![without_return(text.subrange(i, end))] + lines_from(text, end + 1)
        } else {
            seq![text.subrange(i, text.len() as int)]
        }
    }
}

/// The pieces of each line of a tablature.
pub open spec fn tablature_of(text: Seq<char>) -> Seq<Seq<LineBitView>> {
    lines_from(text, 0).map_values(|line: Seq<char>| line_bits(line))
}

/// The pieces of each line, as plain values.
pub open spec fn lines_show(lines: Seq<Vec<LineBit>>) -> Seq<Seq<LineBitView>> {
    lines.map_values(|line: Vec<LineBit>| bits_of(line@))
}

/// Reads a tablature line by line.
pub fn parse_tablature(source: &str) -> (r: Vec<Vec<LineBit>>)
    ensures
        lines_show(r@) == tablature_of(source@),
{
    let chars: Vec<char> = chars_of(source);
    let n: usize = chars.len();
    let mut lines: Vec<Vec<LineBit>> = Vec::new();
    let ghost mut done: Seq<Seq<char>> = Seq::empty();
    let mut start: usize = 0;
    assert(lines_show(lines@) =~= done.map_values(|line: Seq<char>| line_bits(line)));
    while start < n
        invariant
            start <= n,
            n == chars@.len(),
            chars@ == source@,
            lines_show(lines@) == done.map_values(|line: Seq<char>| line_bits(line)),
            done + lines_from(chars@, start as int) == lines_from(chars@, 0),
        decreases n - start,
    {
        let mut end: usize = start;
        while end < n && chars[end] != '\n'
            invariant
                start <= end <= n,
                n == chars@.len(),
                line_end(chars@, start as int) == line_end(chars@, end as int),
            decreases n - end,
        {
            end = end + 1;
        }
        let stop: usize = if end < n && end > start && chars[end - 1] == '\r' {
            end - 1
        } else {
            end
        };
        let ghost line = chars@.subrange(start as int, stop as int);
        let ghost rest = lines_from(chars@, if end < n {
            end + 1
        } else {
            n as int
        });
        proof {
            let whole = chars@.subrange(start as int, end as int);
            if end < n {
                if end > start {
                    assert(whole.last() == chars@[end - 1]);
                }
                assert(line =~= without_return(whole));
            }
            assert(lines_from(chars@, start as int) =~= seq![line] + rest);
            assert((done + seq![line]) + rest =~= done + (seq![line] + rest));
        }
        let parsed: Vec<LineBit> = parse_line(source.substring_char(start, stop));
        let ghost before = lines@;
        lines.push(parsed);
        proof {
            assert(lines_show(lines@) =~= lines_show(before).push(line_bits(line)));
            assert(done.push(line).map_values(|l: Seq<char>| line_bits(l)) =~= done.map_values(
                |l: Seq<char>| line_bits(l),
            ).push(line_bits(line)));
            done = done.push(line);
            assert(done =~= done.drop_last() + seq![line]);
        }
        start = if end < n {
            end + 1
        } else {
            n
        };
    }
    assert(done + Seq::<Seq<char>>::empty() =~= done);
    lines
}

} // verus!
