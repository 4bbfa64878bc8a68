//! The scanner: a longest-match tokenizer over the characters of the
//! source. What it returns for a position is stated by `lex`.

use vstd::prelude::*;
use vstd::string::StringExecFns;
use crate::keywords::{
    get_number_keywords, get_sorted_keywords, is_numeral, numerals, sorted_keyword_table, table_view,
    Keyword,
};
use crate::position::{byte_offset, lemma_byte_offset_is_encoded_length, lemma_byte_offset_monotonic, utf8_width, BytePos, Span, WithSpan};
use crate::token::{Token, TokenKind};

verus! {

/// Characters between tokens: blanks, line ends and closing punctuation.
pub open spec fn is_skip(ch: char) -> bool {
    ch == ' ' || ch == '\r' || ch == '\t' || ch == '。' || ch == '、' || ch == '也' || ch == '\n'
}

/// The first index at or after `from` whose character is not skipped; the
/// length of `chars` where there is none.
pub open spec fn skip_end(chars: Seq<char>, from: int) -> int
    decreases chars.len() - from,
{
    if 0 <= from < chars.len() && is_skip(chars[from]) {
        skip_end(chars, from + 1)
    } else {
        from
    }
}

/// Number of line feeds in `chars[from..to]`.
pub open spec fn newlines(chars: Seq<char>, from: int, to: int) -> nat
    decreases to - from,
{
    if from < 0 || to <= from || to > chars.len() {
        0
    } else {
        newlines(chars, from, to - 1) + if chars[to - 1] == '\n' {
            1nat
        } else {
            0nat
        }
    }
}

/// The first index at or after `from` whose character is no numeral; the
/// length of `chars` where there is none.
pub open spec fn numeral_end(chars: Seq<char>, from: int) -> int
    decreases chars.len() - from,
{
    if 0 <= from < chars.len() && is_numeral(chars[from]) {
        numeral_end(chars, from + 1)
    } else {
        from
    }
}

/// The first index at or after `from` whose character is `stop`; the
/// length of `chars` where there is none.
pub open spec fn find_char(chars: Seq<char>, from: int, stop: char) -> int
    decreases chars.len() - from,
{
    if 0 <= from < chars.len() && chars[from] != stop {
        find_char(chars, from + 1, stop)
    } else {
        from
    }
}

/// Whether the characters of `word` stand in `chars` from index `at` on.
pub open spec fn matches_at(word: Seq<char>, chars: Seq<char>, at: int) -> bool {
    &&& 0 <= at
    &&& at + word.len() <= chars.len()
    &&& forall|k: int| 0 <= k < word.len() ==> chars[at + k] == word[k]
}

/// Index of the first keyword of `table`, from entry `from` on, that
/// matches at `at`; the length of `table` where none does.
pub open spec fn first_match(table: Seq<(Seq<char>, Token)>, chars: Seq<char>, at: int, from: int) -> int
    decreases table.len() - from,
{
    if from < 0 || from >= table.len() {
        table.len() as int
    } else if matches_at(table[from].0, chars, at) {
        from
    } else {
        first_match(table, chars, at, from + 1)
    }
}

pub open spec fn unexpected_character_message() -> Seq<char> {
    "Unexpected character, maybe you need use 「」 or 『』 to wrap it."@
}

pub open spec fn unterminated_string_message() -> Seq<char> {
    "unterminated string."@
}

pub open spec fn unterminated_identifier_message() -> Seq<char> {
    "unterminated identifier."@
}

/// One token as the scanner finds it, by character indices.
///
/// The token takes up `chars[first..next]`; its span is `chars[start..end]`,
/// which leaves out the brackets of an identifier or a string. `line` is the
/// line on which the token starts.
pub struct Lexeme {
    pub kind: TokenKind,
    pub message: Seq<char>,
    pub first: int,
    pub start: int,
    pub end: int,
    pub next: int,
    pub line: int,
}

/// A number: a run of numerals, then, if a middle dot and a numeral
/// follow, the dot and a second run.
pub open spec fn lex_number(chars: Seq<char>, first: int, line: int) -> Lexeme {
    let whole = numeral_end(chars, first);
    let end = if whole + 1 < chars.len() && chars[whole] == '·' && is_numeral(chars[whole + 1]) {
        numeral_end(chars, whole + 1)
    } else {
        whole
    };
    Lexeme { kind: TokenKind::Number, message: Seq::empty(), first, start: first, end, next: end, line }
}

/// A string between `「「` and `」」`.
pub open spec fn lex_double_bracket(chars: Seq<char>, first: int, line: int) -> Lexeme {
    let close = find_char(chars, first + 2, '」');
    if close + 1 < chars.len() && chars[close + 1] == '」' {
        Lexeme {
            kind: TokenKind::String,
            message: Seq::empty(),
            first,
            start: first + 2,
            end: close,
            next: close + 2,
            line,
        }
    } else {
        Lexeme {
            kind: TokenKind::Error,
            message: unterminated_string_message(),
            first,
            start: first,
            end: close,
            next: close,
            line,
        }
    }
}

/// An identifier between `「` and `」`.
pub open spec fn lex_identifier(chars: Seq<char>, first: int, line: int) -> Lexeme {
    let close = find_char(chars, first + 1, '」');
    if close < chars.len() {
        Lexeme {
            kind: TokenKind::Identifier,
            message: Seq::empty(),
            first,
            start: first + 1,
            end: close,
            next: close + 1,
            line,
        }
    } else {
        Lexeme {
            kind: TokenKind::Error,
            message: unterminated_identifier_message(),
            first,
            start: first,
            end: close,
            next: close,
            line,
        }
    }
}

/// A string between `『` and `』`.
pub open spec fn lex_quoted(chars: Seq<char>, first: int, line: int) -> Lexeme {
    let close = find_char(chars, first + 1, '』');
    if close < chars.len() {
        Lexeme {
            kind: TokenKind::String,
            message: Seq::empty(),
            first,
            start: first + 1,
            end: close,
            next: close + 1,
            line,
        }
    } else {
        Lexeme {
            kind: TokenKind::Error,
            message: unterminated_string_message(),
            first,
            start: first,
            end: close,
            next: close,
            line,
        }
    }
}

/// The first keyword of `table` that matches; an error over one character
/// where none does.
pub open spec fn lex_keyword(table: Seq<(Seq<char>, Token)>, chars: Seq<char>, first: int, line: int) -> Lexeme {
    let found = first_match(table, chars, first, 0);
    if found < table.len() {
        Lexeme {
            kind: table[found].1.kind(),
            message: table[found].1.spec_message(),
            first,
            start: first,
            end: first + table[found].0.len(),
            next: first + table[found].0.len(),
            line,
        }
    } else {
        Lexeme {
            kind: TokenKind::Error,
            message: unexpected_character_message(),
            first,
            start: first,
            end: first + 1,
            next: first + 1,
            line,
        }
    }
}

/// The token that a scanner with keywords `table` finds in `chars` when it
/// stands at index `from` on line `line`.
pub open spec fn lex(table: Seq<(Seq<char>, Token)>, chars: Seq<char>, from: int, line: int) -> Lexeme {
    let first = skip_end(chars, from);
    let line = line + newlines(chars, from, first);
    if first >= chars.len() {
        Lexeme { kind: TokenKind::Eof, message: Seq::empty(), first, start: first, end: first, next: first, line }
    } else if is_numeral(chars[first]) {
        lex_number(chars, first, line)
    } else if chars[first] == '「' {
        if first + 1 < chars.len() && chars[first + 1] == '「' {
            lex_double_bracket(chars, first, line)
        } else {
            lex_identifier(chars, first, line)
        }
    } else if chars[first] == '『' {
        lex_quoted(chars, first, line)
    } else {
        lex_keyword(table, chars, first, line)
    }
}

/// The tokens that a scanner finds from index `from` on, up to and with
/// the end of the input.
pub open spec fn lex_all(table: Seq<(Seq<char>, Token)>, chars: Seq<char>, from: int, line: int) -> Seq<Lexeme>
    decreases chars.len() - from,
{
    let lexeme = lex(table, chars, from, line);
    if lexeme.kind == TokenKind::Eof || lexeme.next <= from || lexeme.next > chars.len() {
        seq![lexeme]
    } else {
        seq![lexeme] + lex_all(table, chars, lexeme.next, lexeme.line)
    }
}

pub proof fn lemma_skip_end(chars: Seq<char>, from: int)
    requires
        0 <= from <= chars.len(),
    ensures
        from <= skip_end(chars, from) <= chars.len(),
        forall|i: int| from <= i < skip_end(chars, from) ==> is_skip(#[trigger] chars[i]),
        skip_end(chars, from) < chars.len() ==> !is_skip(chars[skip_end(chars, from)]),
    decreases chars.len() - from,
{
    if from < chars.len() && is_skip(chars[from]) {
        lemma_skip_end(chars, from + 1);
    }
}

pub proof fn lemma_numeral_end(chars: Seq<char>, from: int)
    requires
        0 <= from <= chars.len(),
    ensures
        from <= numeral_end(chars, from) <= chars.len(),
        forall|i: int| from <= i < numeral_end(chars, from) ==> is_numeral(#[trigger] chars[i]),
        numeral_end(chars, from) < chars.len() ==> !is_numeral(chars[numeral_end(chars, from)]),
    decreases chars.len() - from,
{
    if from < chars.len() && is_numeral(chars[from]) {
        lemma_numeral_end(chars, from + 1);
    }
}

pub proof fn lemma_find_char(chars: Seq<char>, from: int, stop: char)
    requires
        0 <= from <= chars.len(),
    ensures
        from <= find_char(chars, from, stop) <= chars.len(),
        forall|i: int| from <= i < find_char(chars, from, stop) ==> #[trigger] chars[i] != stop,
        find_char(chars, from, stop) < chars.len() ==> chars[find_char(chars, from, stop)] == stop,
    decreases chars.len() - from,
{
    if from < chars.len() && chars[from] != stop {
        lemma_find_char(chars, from + 1, stop);
    }
}

pub proof fn lemma_first_match(table: Seq<(Seq<char>, Token)>, chars: Seq<char>, at: int, from: int)
    requires
        0 <= from <= table.len(),
    ensures
        from <= first_match(table, chars, at, from) <= table.len(),
        forall|i: int| from <= i < first_match(table, chars, at, from) ==> !matches_at(#[trigger] table[i].0, chars, at),
        first_match(table, chars, at, from) < table.len() ==> matches_at(
            table[first_match(table, chars, at, from)].0,
            chars,
            at,
        ),
    decreases table.len() - from,
{
    if from < table.len() && !matches_at(table[from].0, chars, at) {
        lemma_first_match(table, chars, at, from + 1);
    }
}

/// Where a token lies: after the skipped characters, within the input, its
/// span inside what it takes up, and past the start unless it is the end
/// of the input.
pub proof fn lemma_lex_bounds(table: Seq<(Seq<char>, Token)>, chars: Seq<char>, from: int, line: int)
    requires
        0 <= from <= chars.len(),
        usable(table),
    ensures
        ({
            let lexeme = lex(table, chars, from, line);
            &&& lexeme.first == skip_end(chars, from)
            &&& from <= lexeme.first <= lexeme.start <= lexeme.end <= lexeme.next <= chars.len()
            &&& lexeme.kind == TokenKind::Eof <==> lexeme.first == chars.len()
            &&& lexeme.kind != TokenKind::Eof ==> lexeme.first < lexeme.next
            &&& line <= lexeme.line <= line + (lexeme.first - from)
        }),
{
    let first = skip_end(chars, from);
    lemma_skip_end(chars, from);
    lemma_newlines_bound(chars, from, first);
    if first < chars.len() {
        lemma_numeral_end(chars, first);
        lemma_numeral_end(chars, first + 1);
        let whole = numeral_end(chars, first);
        if whole + 1 < chars.len() {
            lemma_numeral_end(chars, whole + 1);
        }
        if first + 2 <= chars.len() {
            lemma_find_char(chars, first + 2, '」');
        }
        lemma_find_char(chars, first + 1, '」');
        lemma_find_char(chars, first + 1, '』');
        lemma_first_match(table, chars, first, 0);
        let found = first_match(table, chars, first, 0);
        if found < table.len() {
            assert(table[found].0.len() >= 1);
            assert(table[found].1.kind() != TokenKind::Eof);
        }
    }
}

pub proof fn lemma_newlines_bound(chars: Seq<char>, from: int, to: int)
    ensures
        newlines(chars, from, to) <= to - from || newlines(chars, from, to) == 0,
    decreases to - from,
{
    if !(from < 0 || to <= from || to > chars.len()) {
        lemma_newlines_bound(chars, from, to - 1);
    }
}

/// A table that a scanner can walk: no keyword is empty, and none stands
/// for the end of the input or for an error.
pub open spec fn usable(table: Seq<(Seq<char>, Token)>) -> bool {
    forall|i: int|
        0 <= i < table.len() ==> (#[trigger] table[i]).0.len() >= 1 && table[i].1.kind() != TokenKind::Eof
            && table[i].1.kind() != TokenKind::Error && table[i].1.kind() != TokenKind::Identifier
            && table[i].1.kind() != TokenKind::String
}

/// The scanner's own table is usable.
pub proof fn lemma_sorted_table_usable()
    ensures
        usable(sorted_keyword_table()),
{
    crate::keywords::lemma_sorted_keyword_table();
    let all = crate::keywords::all_keywords();
    assert forall|j: int| 0 <= j < all.len() implies (#[trigger] all[j]).0.len() >= 1 && all[j].1.kind()
        != TokenKind::Eof && all[j].1.kind() != TokenKind::Error && all[j].1.kind() != TokenKind::Identifier
        && all[j].1.kind() != TokenKind::String by {
    }
    let table = sorted_keyword_table();
    assert forall|i: int| 0 <= i < table.len() implies (#[trigger] table[i]).0.len() >= 1 && table[i].1.kind()
        != TokenKind::Eof && table[i].1.kind() != TokenKind::Error && table[i].1.kind()
        != TokenKind::Identifier && table[i].1.kind() != TokenKind::String by {
        let e = table[i];
        assert(all.contains(e));
        let k = choose|k: int| 0 <= k < all.len() && all[k] == e;
        assert(all[k].0.len() >= 1);
    }
}

/// Scanning ends: the tokens from any place on are finitely many, the last
/// of them is the end of the input, and no other is.
pub proof fn lemma_scan_reaches_eof(table: Seq<(Seq<char>, Token)>, chars: Seq<char>, from: int, line: int)
    requires
        0 <= from <= chars.len(),
        usable(table),
    ensures
        lex_all(table, chars, from, line).len() >= 1,
        lex_all(table, chars, from, line).last().kind == TokenKind::Eof,
        forall|i: int|
            0 <= i < lex_all(table, chars, from, line).len() - 1 ==> (#[trigger] lex_all(
                table,
                chars,
                from,
                line,
            )[i]).kind != TokenKind::Eof,
    decreases chars.len() - from,
{
    let lexeme = lex(table, chars, from, line);
    lemma_lex_bounds(table, chars, from, line);
    if lexeme.kind != TokenKind::Eof {
        lemma_scan_reaches_eof(table, chars, lexeme.next, lexeme.line);
        let tail = lex_all(table, chars, lexeme.next, lexeme.line);
        let all = lex_all(table, chars, from, line);
        assert(all == seq![lexeme] + tail);
        assert(all.last() == tail.last());
        assert forall|i: int| 0 <= i < all.len() - 1 implies (#[trigger] all[i]).kind != TokenKind::Eof by {
            if i > 0 {
                assert(all[i] == tail[i - 1]);
            }
        }
    }
}

/// How the span of a token lies in what the token takes up: a string or an
/// identifier leaves out its brackets, every other token leaves out nothing.
pub open spec fn span_fits(chars: Seq<char>, lexeme: Lexeme) -> bool {
    if lexeme.kind == TokenKind::Identifier {
        &&& lexeme.start == lexeme.first + 1
        &&& lexeme.end == lexeme.next - 1
        &&& chars[lexeme.first] == '「'
        &&& chars[lexeme.end] == '」'
    } else if lexeme.kind == TokenKind::String {
        ||| {
            &&& lexeme.start == lexeme.first + 2
            &&& lexeme.end == lexeme.next - 2
            &&& chars[lexeme.first] == '「'
            &&& chars[lexeme.first + 1] == '「'
            &&& chars[lexeme.end] == '」'
            &&& chars[lexeme.end + 1] == '」'
        }
        ||| {
            &&& lexeme.start == lexeme.first + 1
            &&& lexeme.end == lexeme.next - 1
            &&& chars[lexeme.first] == '『'
            &&& chars[lexeme.end] == '』'
        }
    } else {
        lexeme.start == lexeme.first && lexeme.end == lexeme.next
    }
}

/// The token `lexeme`, scanned from index `before` on, lies in the input:
/// only skipped characters stand before it, and its span fits.
pub open spec fn placed(chars: Seq<char>, lexeme: Lexeme, before: int) -> bool {
    &&& before <= lexeme.first <= lexeme.start <= lexeme.end <= lexeme.next <= chars.len()
    &&& forall|p: int| before <= p < lexeme.first ==> is_skip(#[trigger] chars[p])
    &&& span_fits(chars, lexeme)
}

/// The tokens `all`, scanned from index `from` on, lie one after the other
/// in the input: each is placed behind the one before it, and the last ends
/// where the input ends.
pub open spec fn covers(chars: Seq<char>, all: Seq<Lexeme>, from: int) -> bool {
    &&& all.len() >= 1
    &&& all.last().next == chars.len()
    &&& placed(chars, all[0], from)
    &&& forall|i: int| 1 <= i < all.len() ==> placed(chars, #[trigger] all[i], all[i - 1].next)
}

proof fn lemma_lex_placed(table: Seq<(Seq<char>, Token)>, chars: Seq<char>, from: int, line: int)
    requires
        0 <= from <= chars.len(),
        usable(table),
    ensures
        placed(chars, lex(table, chars, from, line), from),
{
    let first = skip_end(chars, from);
    lemma_skip_end(chars, from);
    lemma_lex_bounds(table, chars, from, line);
    if first < chars.len() {
        if first + 2 <= chars.len() {
            lemma_find_char(chars, first + 2, '」');
        }
        lemma_find_char(chars, first + 1, '」');
        lemma_find_char(chars, first + 1, '』');
        lemma_first_match(table, chars, first, 0);
    }
}

/// The tokens from `from` on are the token found there and, unless that is
/// the end of the input, the tokens from behind it on.
proof fn lemma_lex_all_unfold(table: Seq<(Seq<char>, Token)>, chars: Seq<char>, from: int, line: int)
    requires
        0 <= from <= chars.len(),
        usable(table),
    ensures
        ({
            let lexeme = lex(table, chars, from, line);
            &&& from <= lexeme.next <= chars.len()
            &&& lexeme.kind == TokenKind::Eof ==> lexeme.next == chars.len() && lex_all(table, chars, from, line)
                == seq![lexeme]
            &&& lexeme.kind != TokenKind::Eof ==> from < lexeme.next && lex_all(table, chars, from, line)
                == seq![lexeme] + lex_all(table, chars, lexeme.next, lexeme.line)
        }),
{
    lemma_lex_bounds(table, chars, from, line);
}

/// The spans of the tokens cover the source: between two tokens and before
/// the first stand only skipped characters, the tokens reach to the end of
/// the input, and the span of an identifier or a string is what stands
/// between its brackets.
pub proof fn lemma_tokens_cover(table: Seq<(Seq<char>, Token)>, chars: Seq<char>, from: int, line: int)
    requires
        0 <= from <= chars.len(),
        usable(table),
    ensures
        covers(chars, lex_all(table, chars, from, line), from),
    decreases chars.len() - from,
{
    let lexeme = lex(table, chars, from, line);
    let all = lex_all(table, chars, from, line);
    lemma_lex_all_unfold(table, chars, from, line);
    lemma_lex_placed(table, chars, from, line);
    if lexeme.kind != TokenKind::Eof {
        lemma_tokens_cover(table, chars, lexeme.next, lexeme.line);
        let tail = lex_all(table, chars, lexeme.next, lexeme.line);
        lemma_cover_step(chars, lexeme, tail, from);
    }
}

proof fn lemma_cover_step(chars: Seq<char>, lexeme: Lexeme, tail: Seq<Lexeme>, from: int)
    requires
        placed(chars, lexeme, from),
        covers(chars, tail, lexeme.next),
    ensures
        covers(chars, seq![lexeme] + tail, from),
{
    let all = seq![lexeme] + tail;
    assert(all.last() == tail.last());
    assert(all[0] == lexeme);
    assert forall|i: int| 1 <= i < all.len() implies placed(chars, #[trigger] all[i], all[i - 1].next) by {
        assert(all[i] == tail[i - 1]);
        if i > 1 {
            assert(all[i - 1] == tail[i - 2]);
        }
    }
}

/// Longest match: in a table where no keyword comes before a longer one,
/// the keyword that the scanner finds is as long as any keyword that
/// matches at the same place.
pub proof fn lemma_longest_match(table: Seq<(Seq<char>, Token)>, chars: Seq<char>, at: int, other: int)
    requires
        crate::keywords::descending(table),
        0 <= other < table.len(),
        matches_at(table[other].0, chars, at),
    ensures
        first_match(table, chars, at, 0) <= other,
        table[first_match(table, chars, at, 0)].0.len() >= table[other].0.len(),
{
    lemma_first_match(table, chars, at, 0);
}

/// Where a keyword and a longer keyword that starts with it both match,
/// the token that the scanner returns is the longer one or one of its
/// length: it takes up at least the characters of the longer keyword.
pub proof fn lemma_longer_keyword_wins(chars: Seq<char>, from: int, line: int, shorter: int, longer: int)
    requires
        0 <= from <= chars.len(),
        0 <= shorter < sorted_keyword_table().len(),
        0 <= longer < sorted_keyword_table().len(),
        sorted_keyword_table()[shorter].0.len() <= sorted_keyword_table()[longer].0.len(),
        skip_end(chars, from) < chars.len(),
        !is_numeral(chars[skip_end(chars, from)]),
        chars[skip_end(chars, from)] != '「',
        chars[skip_end(chars, from)] != '『',
        matches_at(sorted_keyword_table()[shorter].0, chars, skip_end(chars, from)),
        matches_at(sorted_keyword_table()[longer].0, chars, skip_end(chars, from)),
    ensures
        ({
            let lexeme = lex(sorted_keyword_table(), chars, from, line);
            &&& lexeme.kind != TokenKind::Error
            &&& lexeme.next - lexeme.first >= sorted_keyword_table()[longer].0.len()
        }),
{
    let table = sorted_keyword_table();
    let first = skip_end(chars, from);
    crate::keywords::lemma_sorted_keyword_table();
    lemma_sorted_table_usable();
    lemma_longest_match(table, chars, first, longer);
    lemma_first_match(table, chars, first, 0);
    let found = first_match(table, chars, first, 0);
    assert(table[found].1.kind() != TokenKind::Error);
    assert(lex(table, chars, from, line) == lex_keyword(table, chars, first, line + newlines(chars, from, first)));
}

/// Skipping entries that do not match does not change the first match.
proof fn lemma_first_match_from(table: Seq<(Seq<char>, Token)>, chars: Seq<char>, at: int, from: int, to: int)
    requires
        0 <= from <= to <= table.len(),
        forall|j: int| from <= j < to ==> !matches_at(#[trigger] table[j].0, chars, at),
    ensures
        first_match(table, chars, at, from) == first_match(table, chars, at, to),
    decreases to - from,
{
    if from < to {
        lemma_first_match_from(table, chars, at, from + 1, to);
    }
}

proof fn lemma_skip_step(chars: Seq<char>, from: int)
    requires
        0 <= from < chars.len(),
        is_skip(chars[from]),
    ensures
        skip_end(chars, from) == skip_end(chars, from + 1),
{
}

/// Total number of bytes that the characters of `chars` take in UTF-8.
pub open spec fn total_width(chars: Seq<char>) -> nat {
    byte_offset(chars, chars.len() as int)
}

/// What a scanner holds: the characters of the source, the index of the
/// next character to read, the line of that character, and the character
/// indices `[start, end)` of the span of the token it returned last.
pub struct ScannerView {
    pub chars: Seq<char>,
    pub current: int,
    pub line: int,
    pub start: int,
    pub end: int,
}

/// The token `token` is what `lexeme` describes: kind, message, line, and
/// as span the byte offsets of the lexeme's span.
pub open spec fn describes(chars: Seq<char>, lexeme: Lexeme, token: WithSpan<Token>) -> bool {
    &&& token.value().kind() == lexeme.kind
    &&& token.value().spec_message() == lexeme.message
    &&& token.span().start.0 == byte_offset(chars, lexeme.start)
    &&& token.span().end.0 == byte_offset(chars, lexeme.end)
    &&& token.line() == lexeme.line
}

pub struct Scanner {
    chars: Vec<char>,
    current: usize,
    start: usize,
    current_pos: BytePos,
    start_pos: BytePos,
    line: usize,
    sorted_keywords: Vec<Keyword>,
    span_start: usize,
    span_end: usize,
}

impl View for Scanner {
    type V = ScannerView;

    closed spec fn view(&self) -> ScannerView {
        ScannerView {
            chars: self.chars@,
            current: self.current as int,
            line: self.line as int,
            start: self.span_start as int,
            end: self.span_end as int,
        }
    }
}

impl Scanner {
    /// The scanner stands inside its input, knows the byte offset of where
    /// it stands, and walks the sorted keyword table.
    pub closed spec fn wf(&self) -> bool {
        &&& self.current <= self.chars@.len() < usize::MAX
        &&& self.current_pos.0 == byte_offset(self.chars@, self.current as int)
        &&& total_width(self.chars@) <= usize::MAX
        &&& 1 <= self.line <= self.current + 1
        &&& table_view(self.sorted_keywords@) == sorted_keyword_table()
        &&& self.span_start <= self.span_end <= self.chars@.len()
    }

    /// Byte offsets of where the token that is being read started and of
    /// where the scanner stands.
    pub closed spec fn token_span(&self) -> Span {
        Span { start: self.start_pos, end: self.current_pos }
    }

    /// The scanner is reading a token that started at `start`.
    spec fn reading(&self) -> bool {
        &&& self.wf()
        &&& self.start <= self.current
        &&& self.start_pos.0 == byte_offset(self.chars@, self.start as int)
    }

    /// Nothing but the place of the scanner differs.
    spec fn moved(&self, before: &Scanner) -> bool {
        &&& self.chars == before.chars
        &&& self.sorted_keywords == before.sorted_keywords
        &&& self.start == before.start
        &&& self.start_pos == before.start_pos
        &&& self.line == before.line
        &&& self.span_start == before.span_start
        &&& self.span_end == before.span_end
    }

    pub proof fn lemma_wf(&self)
        requires
            self.wf(),
        ensures
            0 <= self@.current <= self@.chars.len(),
            0 <= self@.start <= self@.end <= self@.chars.len(),
            1 <= self@.line <= self@.current + 1,
            self@.chars.len() < usize::MAX,
    {
    }

    pub fn new(buf: &str) -> (scanner: Scanner)
        requires
            buf@.len() < usize::MAX,
        ensures
            scanner.wf(),
            scanner@ == (ScannerView { chars: buf@, current: 0, line: 1, start: 0, end: 0 }),
    {
        let chars = characters(buf);
        let bytes = buf.as_bytes();
        let byte_count: usize = bytes.len();
        proof {
            lemma_byte_offset_is_encoded_length(buf@);
        }
        Self {
            chars,
            current: 0,
            start: 0,
            current_pos: BytePos(0),
            start_pos: BytePos(0),
            line: 1,
            sorted_keywords: get_sorted_keywords(),
            span_start: 0,
            span_end: 0,
        }
    }

    /// Every token from where the scanner stands, up to and with the end
    /// of the input.
    pub fn scan_tokens(&mut self) -> (list: Vec<WithSpan<Token>>)
        requires
            old(self).wf(),
        ensures
            final(self).wf(),
            final(self)@.chars == old(self)@.chars,
            final(self)@.current == old(self)@.chars.len(),
            list@.len() == lex_all(
                sorted_keyword_table(),
                old(self)@.chars,
                old(self)@.current,
                old(self)@.line,
            ).len(),
            forall|i: int|
                0 <= i < list@.len() ==> describes(
                    old(self)@.chars,
                    #[trigger] lex_all(
                        sorted_keyword_table(),
                        old(self)@.chars,
                        old(self)@.current,
                        old(self)@.line,
                    )[i],
                    list@[i],
                ),
    {
        let ghost table = sorted_keyword_table();
        let ghost chars = self@.chars;
        let ghost all = lex_all(table, chars, self@.current, self@.line);
        let mut list: Vec<WithSpan<Token>> = Vec::new();
        let mut done: bool = false;
        proof {
            lemma_sorted_table_usable();
        }
        while !done
            invariant
                self.wf(),
                self@.chars == chars,
                table == sorted_keyword_table(),
                usable(table),
                done ==> self@.current == chars.len(),
                done ==> list@.len() == all.len(),
                !done ==> all == all.take(list@.len() as int) + lex_all(table, chars, self@.current, self@.line),
                list@.len() <= all.len(),
                forall|i: int| 0 <= i < list@.len() ==> describes(chars, #[trigger] all[i], list@[i]),
            decreases chars.len() - self@.current + if done { 0int } else { 1int },
        {
            let ghost from = self@.current;
            let ghost line = self@.line;
            let ghost rest = lex_all(table, chars, from, line);
            proof {
                self.lemma_wf();
                lemma_lex_bounds(table, chars, from, line);
            }
            let token = self.scan_token();
            let is_end = match token.get_value() {
                Token::Eof => true,
                _ => false,
            };
            proof {
                let lexeme = lex(table, chars, from, line);
                assert(rest[0] == lexeme);
                assert(all[list@.len() as int] == rest[0]);
                if !is_end {
                    let tail = lex_all(table, chars, lexeme.next, lexeme.line);
                    assert(rest == seq![lexeme] + tail);
                    assert(all.take(list@.len() as int + 1) =~= all.take(list@.len() as int).push(lexeme));
                    assert(all =~= all.take(list@.len() as int + 1) + tail);
                } else {
                    assert(rest =~= seq![lexeme]);
                    assert(all.len() == list@.len() + 1);
                }
            }
            list.push(token);
            if is_end {
                done = true;
            }
        }
        list
    }

    /// The next token from where the scanner stands.
    pub fn scan_token(&mut self) -> (token: WithSpan<Token>)
        requires
            old(self).wf(),
        ensures
            final(self).wf(),
            ({
                let lexeme = lex(sorted_keyword_table(), old(self)@.chars, old(self)@.current, old(self)@.line);
                &&& describes(old(self)@.chars, lexeme, token)
                &&& final(self)@ == (ScannerView {
                    chars: old(self)@.chars,
                    current: lexeme.next,
                    line: lexeme.line,
                    start: lexeme.start,
                    end: lexeme.end,
                })
            }),
    {
        proof {
            old(self).lemma_wf();
            lemma_skip_end(self@.chars, self@.current);
        }
        self.skip_whitespace();
        self.start = self.current;
        self.start_pos = self.current_pos;
        self.span_start = self.current;
        self.span_end = self.current;

        if self.is_at_end() {
            return self.make_token(Token::Eof);
        }
        self.try_match_keyword()
    }

    fn try_match_keyword(&mut self) -> (token: WithSpan<Token>)
        requires
            old(self).reading(),
            old(self).start == old(self).current,
            old(self).span_start == old(self).current,
            old(self).current < old(self).chars@.len(),
            !is_skip(old(self).chars@[old(self).current as int]),
        ensures
            final(self).wf(),
            ({
                let lexeme = lex(sorted_keyword_table(), old(self)@.chars, old(self)@.current, old(self)@.line);
                &&& describes(old(self)@.chars, lexeme, token)
                &&& final(self)@ == (ScannerView {
                    chars: old(self)@.chars,
                    current: lexeme.next,
                    line: lexeme.line,
                    start: lexeme.start,
                    end: lexeme.end,
                })
            }),
    {
        let ghost chars = self.chars@;
        let ghost first = self.current as int;
        let ghost table = sorted_keyword_table();
        proof {
            assert(skip_end(chars, first) == first);
            assert(newlines(chars, first, first) == 0);
        }
        let ch = self.chars[self.current];
        if self.is_numeric(Some(ch)) {
            return self.number();
        }
        if ch == '「' {
            self.advance();
            if self.peek() == Some('「') {
                return self.string_single_quota();
            }
            return self.identifier();
        }
        if ch == '『' {
            return self.string_double_quota();
        }
        let mut i: usize = 0;
        let mut found: bool = false;
        while i < self.sorted_keywords.len() && !found
            invariant
                i <= self.sorted_keywords@.len(),
                self.reading(),
                self.start == self.current,
                table == sorted_keyword_table(),
                forall|j: int| 0 <= j < i ==> !matches_at(#[trigger] table[j].0, self.chars@, self.current as int),
                found ==> i < self.sorted_keywords@.len() && matches_at(
                    table[i as int].0,
                    self.chars@,
                    self.current as int,
                ),
            decreases self.sorted_keywords@.len() - i + if found { 0int } else { 1int },
        {
            assert(table[i as int].0 == self.sorted_keywords@[i as int].0@);
            if self.check_keyword(&self.sorted_keywords[i].0) {
                found = true;
            } else {
                i += 1;
            }
        }
        proof {
            lemma_first_match_from(table, chars, first, 0, i as int);
            lemma_sorted_table_usable();
        }
        if found {
            let len: usize = self.sorted_keywords[i].0.len();
            let token = self.sorted_keywords[i].1.duplicate();
            assert(table[i as int] == (self.sorted_keywords@[i as int].0@, self.sorted_keywords@[i as int].1));
            self.step_by(len);
            self.span_end = self.current;
            self.make_token(token)
        } else {
            self.advance();
            self.span_end = self.current;
            self.error_token("Unexpected character, maybe you need use 「」 or 『』 to wrap it.")
        }
    }

    /// Moves over blanks, line ends and closing punctuation, and counts
    /// the line ends.
    pub fn skip_whitespace(&mut self)
        requires
            old(self).wf(),
        ensures
            final(self).wf(),
            final(self)@ == (ScannerView {
                current: skip_end(old(self)@.chars, old(self)@.current),
                line: old(self)@.line + newlines(
                    old(self)@.chars,
                    old(self)@.current,
                    skip_end(old(self)@.chars, old(self)@.current),
                ),
                ..old(self)@
            }),
    {
        let ghost from = self.current as int;
        let ghost line = self.line as int;
        loop
            invariant
                self.wf(),
                self.chars == old(self).chars,
                self.start == old(self).start,
                self.start_pos == old(self).start_pos,
                self.span_start == old(self).span_start,
                self.span_end == old(self).span_end,
                from == old(self).current,
                line == old(self).line,
                from <= self.current,
                skip_end(self.chars@, from) == skip_end(self.chars@, self.current as int),
                self.line == line + newlines(self.chars@, from, self.current as int),
            decreases self.chars@.len() - self.current,
        {
            match self.peek() {
                Some(' ') | Some('\r') | Some('\t') | Some('。') | Some('、') | Some('也') => {
                    proof {
                        lemma_skip_step(self.chars@, self.current as int);
                    }
                    self.advance();
                },
                Some('\n') => {
                    proof {
                        lemma_skip_step(self.chars@, self.current as int);
                    }
                    self.advance();
                    self.line += 1;
                },
                _ => {
                    return ;
                },
            }
        }
    }

    pub fn error_token(&self, msg: &str) -> (token: WithSpan<Token>)
        ensures
            token.value().kind() == TokenKind::Error,
            token.value().spec_message() == msg@,
            token.span() == self.token_span(),
            token.line() == self@.line,
    {
        self.make_token(Token::Error(String::from_str(msg)))
    }

    /// A token whose span leaves out the brackets `left` at its start and
    /// `right` at its end.
    pub fn make_token_in<const N: usize>(&self, token: Token, left: [char; N], right: [char; N]) -> (result:
        WithSpan<Token>)
        requires
            self.token_span().start.0 + total_width(left@) + total_width(right@) <= self.token_span().end.0,
        ensures
            result.value() == token,
            result.span().start.0 == self.token_span().start.0 + total_width(left@),
            result.span().end.0 == self.token_span().end.0 - total_width(right@),
            result.line() == self@.line,
    {
        let mut start_pos = self.start_pos;
        let mut end_pos = self.current_pos;
        let mut i: usize = 0;
        while i < N
            invariant
                i <= N,
                left@.len() == N,
                start_pos.0 == self.start_pos.0 + byte_offset(left@, i as int),
                self.start_pos.0 + total_width(left@) <= usize::MAX,
            decreases N - i,
        {
            proof {
                lemma_byte_offset_monotonic(left@, i + 1, N as int);
            }
            start_pos.shift(left[i]);
            i += 1;
        }
        let mut k: usize = 0;
        while k < N
            invariant
                k <= N,
                right@.len() == N,
                end_pos.0 == self.current_pos.0 - byte_offset(right@, k as int),
                total_width(right@) <= self.current_pos.0,
            decreases N - k,
        {
            proof {
                lemma_byte_offset_monotonic(right@, k + 1, N as int);
            }
            end_pos.backwards(right[k]);
            k += 1;
        }
        WithSpan::new(token, Span::from(start_pos, end_pos), self.line)
    }

    pub fn make_token(&self, token: Token) -> (result: WithSpan<Token>)
        ensures
            result.value() == token,
            result.span() == self.token_span(),
            result.line() == self@.line,
    {
        WithSpan::new(token, Span::from(self.start_pos, self.current_pos), self.line)
    }

    /// Moves over one character, if there is one.
    fn advance(&mut self)
        requires
            old(self).wf(),
        ensures
            final(self).moved(old(self)),
            final(self).current == if old(self).current < old(self).chars@.len() {
                old(self).current + 1
            } else {
                old(self).current as int
            },
            final(self).current_pos.0 == byte_offset(final(self).chars@, final(self).current as int),
            final(self).wf(),
    {
        if self.current < self.chars.len() {
            let c = self.chars[self.current];
            proof {
                lemma_byte_offset_monotonic(self.chars@, self.current + 1, self.chars@.len() as int);
            }
            self.current_pos.shift(c);
            self.current += 1;
        }
    }

    fn step_by(&mut self, step: usize)
        requires
            old(self).wf(),
            old(self).current + step <= old(self).chars@.len(),
        ensures
            final(self).moved(old(self)),
            final(self).current == old(self).current + step,
            final(self).wf(),
    {
        let mut i: usize = 0;
        while i < step
            invariant
                i <= step,
                self.wf(),
                self.moved(old(self)),
                self.current == old(self).current + i,
                old(self).current + step <= old(self).chars@.len(),
            decreases step - i,
        {
            self.advance();
            i += 1;
        }
    }

    fn peek(&self) -> (ch: Option<char>)
        requires
            self.current <= self.chars@.len(),
        ensures
            ch == if self.current < self.chars@.len() {
                Some(self.chars@[self.current as int])
            } else {
                None
            },
    {
        self.peek_any_num(0)
    }

    fn peek_next(&self) -> (ch: Option<char>)
        requires
            self.current <= self.chars@.len(),
        ensures
            ch == if self.current + 1 < self.chars@.len() {
                Some(self.chars@[self.current + 1])
            } else {
                None
            },
    {
        self.peek_any_num(1)
    }

    fn peek_any_num(&self, index: usize) -> (ch: Option<char>)
        requires
            self.current <= self.chars@.len(),
        ensures
            ch == if self.current + index < self.chars@.len() {
                Some(self.chars@[self.current + index])
            } else {
                None
            },
    {
        if index < self.chars.len() - self.current {
            Some(self.chars[self.current + index])
        } else {
            None
        }
    }

    /// Moves over the next character, whatever it is; says whether there
    /// was one.
    fn consume(&mut self, _ch: char) -> (consumed: bool)
        requires
            old(self).wf(),
        ensures
            final(self).moved(old(self)),
            consumed == (old(self).current < old(self).chars@.len()),
            final(self).current == old(self).current + if consumed { 1int } else { 0int },
            final(self).wf(),
    {
        match self.peek() {
            Some(_ch) => {
                self.advance();
                true
            },
            None => false,
        }
    }

    /// Moves to the next character that is `stop`, or to the end.
    fn consume_until(&mut self, stop: char)
        requires
            old(self).wf(),
        ensures
            final(self).moved(old(self)),
            final(self).current == find_char(old(self).chars@, old(self).current as int, stop),
            final(self).wf(),
    {
        loop
            invariant
                self.wf(),
                self.moved(old(self)),
                old(self).current <= self.current,
                find_char(self.chars@, old(self).current as int, stop) == find_char(
                    self.chars@,
                    self.current as int,
                    stop,
                ),
            ensures
                self.current == find_char(self.chars@, old(self).current as int, stop),
            decreases self.chars@.len() - self.current,
        {
            match self.peek() {
                Some(ch) => {
                    if ch != stop {
                        self.advance();
                    } else {
                        break;
                    }
                },
                None => {
                    break;
                },
            }
        }
    }

    /// Moves over the numerals that follow.
    fn consume_numerals(&mut self)
        requires
            old(self).wf(),
        ensures
            final(self).moved(old(self)),
            final(self).current == numeral_end(old(self).chars@, old(self).current as int),
            final(self).wf(),
    {
        loop
            invariant
                self.wf(),
                self.moved(old(self)),
                old(self).current <= self.current,
                numeral_end(self.chars@, old(self).current as int) == numeral_end(
                    self.chars@,
                    self.current as int,
                ),
            ensures
                self.current == numeral_end(self.chars@, old(self).current as int),
            decreases self.chars@.len() - self.current,
        {
            let next = self.peek();
            if self.is_numeric(next) {
                self.advance();
            } else {
                break;
            }
        }
    }

    fn check_keyword(&self, keyword: &Vec<char>) -> (found: bool)
        requires
            self.current <= self.chars@.len(),
        ensures
            found == matches_at(keyword@, self.chars@, self.current as int),
    {
        let len = keyword.len();
        if len > self.chars.len() - self.current {
            return false;
        }
        let mut idx: usize = 0;
        while idx < len
            invariant
                idx <= len,
                len == keyword@.len(),
                self.current + len <= self.chars.len(),
                forall|k: int| 0 <= k < idx ==> self.chars@[self.current + k] == keyword@[k],
            decreases len - idx,
        {
            if keyword[idx] != self.chars[self.current + idx] {
                return false;
            }
            idx += 1;
        }
        true
    }

    fn is_numeric(&self, ch: Option<char>) -> (found: bool)
        ensures
            found == (ch is Some && is_numeral(ch->0)),
    {
        match ch {
            Some(c) => {
                let digits = get_number_keywords();
                let mut i: usize = 0;
                assert(digits@.len() == 40);
                while i < 40
                    invariant
                        i <= 40,
                        digits@ == numerals(),
                        numerals().len() == 40,
                        ch == Some(c),
                        forall|j: int| 0 <= j < i ==> numerals()[j] != c,
                    decreases 40 - i,
                {
                    if digits[i] == c {
                        assert(numerals()[i as int] == c);
                        assert(numerals().contains(c));
                        return true;
                    }
                    i += 1;
                }
                assert(digits@.len() == 40);
                assert(!numerals().contains(c));
                false
            },
            None => false,
        }
    }

    fn is_at_end(&self) -> (end: bool)
        ensures
            end == (self.current >= self.chars@.len()),
    {
        self.current >= self.chars.len()
    }

    /// Reads a string between `「「` and `」」`; the scanner stands on the second
    /// opening bracket.
    fn string_single_quota(&mut self) -> (token: WithSpan<Token>)
        requires
            old(self).reading(),
            old(self).current == old(self).start + 1,
            old(self).current < old(self).chars@.len(),
            old(self).chars@[old(self).start as int] == '「',
            old(self).chars@[old(self).current as int] == '「',
        ensures
            final(self).wf(),
            ({
                let lexeme = lex_double_bracket(old(self).chars@, old(self).start as int, old(self).line as int);
                &&& describes(old(self).chars@, lexeme, token)
                &&& final(self)@ == (ScannerView {
                    chars: old(self)@.chars,
                    current: lexeme.next,
                    line: lexeme.line,
                    start: lexeme.start,
                    end: lexeme.end,
                })
            }),
    {
        let ghost chars = self.chars@;
        let ghost first = self.start as int;
        self.advance();
        self.consume_until('」');
        proof {
            lemma_find_char(chars, first + 2, '」');
        }
        if self.peek() == Some('」') && self.peek_next() == Some('」') {
            let close: usize = self.current;
            self.step_by(2);
            self.span_start = self.start + 2;
            self.span_end = close;
            proof {
                let left: Seq<char> = ['「', '「']@;
                let right: Seq<char> = ['」', '」']@;
                assert(total_width(left) == 2 * utf8_width('「')) by {
                    assert(byte_offset(left, 2) == byte_offset(left, 1) + utf8_width(left[1]));
                    assert(byte_offset(left, 1) == byte_offset(left, 0) + utf8_width(left[0]));
                }
                assert(total_width(right) == 2 * utf8_width('」')) by {
                    assert(byte_offset(right, 2) == byte_offset(right, 1) + utf8_width(right[1]));
                    assert(byte_offset(right, 1) == byte_offset(right, 0) + utf8_width(right[0]));
                }
                assert(byte_offset(chars, first + 2) == byte_offset(chars, first) + 2 * utf8_width('「')) by {
                    assert(byte_offset(chars, first + 2) == byte_offset(chars, first + 1) + utf8_width(
                        chars[first + 1],
                    ));
                    assert(byte_offset(chars, first + 1) == byte_offset(chars, first) + utf8_width(chars[first]));
                }
                assert(byte_offset(chars, close + 2) == byte_offset(chars, close as int) + 2 * utf8_width('」'))
                    by {
                    assert(byte_offset(chars, close + 2) == byte_offset(chars, close + 1) + utf8_width(
                        chars[close + 1],
                    ));
                    assert(byte_offset(chars, close + 1) == byte_offset(chars, close as int) + utf8_width(
                        chars[close as int],
                    ));
                }
                lemma_byte_offset_monotonic(chars, first + 2, close as int);
            }
            return self.make_token_in(Token::String, ['「', '「'], ['」', '」']);
        }
        self.span_start = self.start;
        self.span_end = self.current;
        self.error_token("unterminated string.")
    }

    /// Reads a string between `『` and `』`; the scanner stands on the opening
    /// bracket.
    fn string_double_quota(&mut self) -> (token: WithSpan<Token>)
        requires
            old(self).reading(),
            old(self).current == old(self).start,
            old(self).current < old(self).chars@.len(),
            old(self).chars@[old(self).start as int] == '『',
        ensures
            final(self).wf(),
            ({
                let lexeme = lex_quoted(old(self).chars@, old(self).start as int, old(self).line as int);
                &&& describes(old(self).chars@, lexeme, token)
                &&& final(self)@ == (ScannerView {
                    chars: old(self)@.chars,
                    current: lexeme.next,
                    line: lexeme.line,
                    start: lexeme.start,
                    end: lexeme.end,
                })
            }),
    {
        let ghost chars = self.chars@;
        let ghost first = self.start as int;
        self.advance();
        self.consume_until('』');
        proof {
            lemma_find_char(chars, first + 1, '』');
        }
        let close: usize = self.current;
        if self.consume('』') {
            self.span_start = self.start + 1;
            self.span_end = close;
            proof {
                let left: Seq<char> = ['『']@;
                let right: Seq<char> = ['』']@;
                assert(total_width(left) == utf8_width('『')) by {
                    assert(byte_offset(left, 1) == byte_offset(left, 0) + utf8_width(left[0]));
                }
                assert(total_width(right) == utf8_width('』')) by {
                    assert(byte_offset(right, 1) == byte_offset(right, 0) + utf8_width(right[0]));
                }
                assert(byte_offset(chars, first + 1) == byte_offset(chars, first) + utf8_width(chars[first]));
                assert(byte_offset(chars, close + 1) == byte_offset(chars, close as int) + utf8_width(
                    chars[close as int],
                ));
                lemma_byte_offset_monotonic(chars, first + 1, close as int);
            }
            return self.make_token_in(Token::String, ['『'], ['』']);
        }
        self.span_start = self.start;
        self.span_end = self.current;
        self.error_token("unterminated string.")
    }

    /// Reads an identifier between `「` and `」`; the scanner stands behind the
    /// opening bracket.
    fn identifier(&mut self) -> (token: WithSpan<Token>)
        requires
            old(self).reading(),
            old(self).current == old(self).start + 1,
            old(self).chars@[old(self).start as int] == '「',
        ensures
            final(self).wf(),
            ({
                let lexeme = lex_identifier(old(self).chars@, old(self).start as int, old(self).line as int);
                &&& describes(old(self).chars@, lexeme, token)
                &&& final(self)@ == (ScannerView {
                    chars: old(self)@.chars,
                    current: lexeme.next,
                    line: lexeme.line,
                    start: lexeme.start,
                    end: lexeme.end,
                })
            }),
    {
        let ghost chars = self.chars@;
        let ghost first = self.start as int;
        self.consume_until('」');
        proof {
            lemma_find_char(chars, first + 1, '」');
        }
        let close: usize = self.current;
        if self.consume('」') {
            self.span_start = self.start + 1;
            self.span_end = close;
            proof {
                let left: Seq<char> = ['「']@;
                let right: Seq<char> = ['」']@;
                assert(total_width(left) == utf8_width('「')) by {
                    assert(byte_offset(left, 1) == byte_offset(left, 0) + utf8_width(left[0]));
                }
                assert(total_width(right) == utf8_width('」')) by {
                    assert(byte_offset(right, 1) == byte_offset(right, 0) + utf8_width(right[0]));
                }
                assert(byte_offset(chars, first + 1) == byte_offset(chars, first) + utf8_width(chars[first]));
                assert(byte_offset(chars, close + 1) == byte_offset(chars, close as int) + utf8_width(
                    chars[close as int],
                ));
                lemma_byte_offset_monotonic(chars, first + 1, close as int);
            }
            return self.make_token_in(Token::Identifier, ['「'], ['」']);
        }
        self.span_start = self.start;
        self.span_end = self.current;
        self.error_token("unterminated identifier.")
    }

    /// Reads a number; the scanner stands on its first numeral.
    fn number(&mut self) -> (token: WithSpan<Token>)
        requires
            old(self).reading(),
            old(self).current == old(self).start,
        ensures
            final(self).wf(),
            ({
                let lexeme = lex_number(old(self).chars@, old(self).start as int, old(self).line as int);
                &&& describes(old(self).chars@, lexeme, token)
                &&& final(self)@ == (ScannerView {
                    chars: old(self)@.chars,
                    current: lexeme.next,
                    line: lexeme.line,
                    start: lexeme.start,
                    end: lexeme.end,
                })
            }),
    {
        let ghost chars = self.chars@;
        let ghost first = self.start as int;
        self.consume_numerals();
        proof {
            lemma_numeral_end(chars, first);
        }
        let next = self.peek_next();
        if Some('·') == self.peek() && self.is_numeric(next) {
            proof {
                lemma_numeral_end(chars, self.current + 1);
            }
            self.advance();
            self.consume_numerals();
        }
        self.span_start = self.start;
        self.span_end = self.current;
        self.make_token(Token::Number)
    }

    /// The characters of the source.
    pub fn chars(&self) -> (chars: &Vec<char>)
        ensures
            chars@ == self@.chars,
    {
        &self.chars
    }

    /// The line on which the scanner stands.
    pub fn line(&self) -> (line: usize)
        ensures
            line == self@.line,
    {
        self.line
    }

    /// Character index at which the span of the last token starts.
    pub fn span_start(&self) -> (start: usize)
        ensures
            start == self@.start,
    {
        self.span_start
    }

    /// Character index at which the span of the last token ends.
    pub fn span_end(&self) -> (end: usize)
        ensures
            end == self@.end,
    {
        self.span_end
    }
}

fn characters(buf: &str) -> (chars: Vec<char>)
    ensures
        chars@ == buf@,
{
    let mut chars: Vec<char> = Vec::new();
    for ch in it: buf.chars()
        invariant
            it.seq() == buf@,
            chars@ == it.seq().take(it.index() as int),
    {
        chars.push(ch);
        assert(it.seq().take(it.index() + 1) =~= it.seq().take(it.index() as int).push(ch));
    }
    assert(buf@.take(buf@.len() as int) =~= buf@);
    chars
}

} // verus!
