//! The keyword table and the numeral characters.

use vstd::prelude::*;
use crate::token::Token;

verus! {

/// A keyword with the token that it stands for.
pub type Keyword = (Vec<char>, Token);

/// The keywords of `table` as plain sequences.
pub open spec fn table_view(table: Seq<Keyword>) -> Seq<(Seq<char>, Token)> {
    Seq::new(table.len(), |i: int| (table[i].0@, table[i].1))
}

/// The keywords used in declarations and output.
pub open spec fn declaration_keywords() -> Seq<(Seq<char>, Token)> {
    seq![
        (seq!['吾', '有'], Token::Decl),
        (seq!['今', '有'], Token::Decl),
        (seq!['有'], Token::DeclShort),
        (seq!['數'], Token::Type),
        (seq!['言'], Token::Type),
        (seq!['爻'], Token::Type),
        (seq!['書', '之'], Token::Print),
        (seq!['名', '之', '曰'], Token::NameIs),
        (seq!['曰'], Token::Is),
    ]
}

/// The keywords for the boolean literals, arithmetic and its prepositions.
pub open spec fn arithmetic_keywords() -> Seq<(Seq<char>, Token)> {
    seq![
        (seq!['陰'], Token::False),
        (seq!['陽'], Token::True),
        (seq!['加'], Token::Plus),
        (seq!['減'], Token::Minus),
        (seq!['乘'], Token::Star),
        (seq!['於'], Token::PrepositionLeft),
        (seq!['以'], Token::PrepositionRight),
    ]
}

/// The keywords for comparisons.
pub open spec fn comparison_keywords() -> Seq<(Seq<char>, Token)> {
    seq![
        (seq!['等', '於'], Token::EqualEqual),
        (seq!['不', '等', '於'], Token::BangEqual),
        (seq!['不', '大', '於'], Token::BangGreater),
        (seq!['不', '小', '於'], Token::BangLess),
        (seq!['大', '於'], Token::Greater),
        (seq!['小', '於'], Token::Less),
    ]
}

/// The keywords used in assignments.
pub open spec fn assignment_keywords() -> Seq<(Seq<char>, Token)> {
    seq![
        (seq!['昔', '之'], Token::AssignFrom),
        (seq!['今'], Token::AssignTo),
        (seq!['者'], Token::Conjunction),
        (seq!['其'], Token::Prev),
        (seq!['是', '矣'], Token::Sure),
    ]
}

/// The keywords for conditionals, boolean algebra and loops.
pub open spec fn control_keywords() -> Seq<(Seq<char>, Token)> {
    seq![
        (seq!['若'], Token::If),
        (seq!['若', '非'], Token::Else),
        (seq!['云', '云'], Token::YunYun),
        (seq!['也'], Token::Ye),
        (seq!['變'], Token::Invert),
        (seq!['夫'], Token::Fu),
        (seq!['中', '無', '陰', '乎'], Token::And),
        (seq!['中', '有', '陽', '乎'], Token::Or),
        (seq!['恆', '為', '是'], Token::Loop),
        (seq!['為', '是'], Token::For),
        (seq!['遍'], Token::ForMid),
        (seq!['乃', '止'], Token::Break),
    ]
}

/// The keywords for function definitions, calls and returns.
pub open spec fn function_keywords() -> Seq<(Seq<char>, Token)> {
    seq![
        (seq!['吾', '有', '一', '術'], Token::Fun),
        (seq!['欲', '行', '是', '術'], Token::FunctionReady),
        (seq!['必', '先', '得'], Token::FunctionArg),
        (seq!['是', '術', '曰'], Token::FunctionBodyBegin),
        (seq!['是', '謂'], Token::FunctionEnd1),
        (seq!['之', '術', '也'], Token::FunctionEnd2),
        (seq!['施'], Token::Call),
        (seq!['乃', '得'], Token::Return),
    ]
}

/// The keywords, in the order in which they are defined.
pub open spec fn keyword_table() -> Seq<(Seq<char>, Token)> {
    declaration_keywords() + arithmetic_keywords() + comparison_keywords() + assignment_keywords()
        + control_keywords() + function_keywords()
}

/// The characters that a number literal is written with.
pub open spec fn numerals() -> Seq<char> {
    seq![
        '負', '又', '零', '〇', '一', '二', '三', '四', '五', '六', '七', '八', '九', '十', '百',
        '千', '萬', '億', '兆', '京', '垓', '秭', '穰', '溝', '澗', '正', '載', '極', '分', '釐',
        '毫', '絲', '忽', '微', '纖', '沙', '塵', '埃', '渺', '漠',
    ]
}

pub open spec fn is_numeral(ch: char) -> bool {
    numerals().contains(ch)
}

/// Every numeral as a keyword of one character that stands for a number.
pub open spec fn numeral_keywords(count: nat) -> Seq<(Seq<char>, Token)> {
    Seq::new(count, |i: int| (seq![numerals()[i]], Token::Number))
}

/// The keywords followed by the numerals.
pub open spec fn all_keywords() -> Seq<(Seq<char>, Token)> {
    keyword_table() + numeral_keywords(40)
}

/// The entries of `table` whose keyword has `len` characters, in their
/// order in `table`.
pub open spec fn of_length(table: Seq<(Seq<char>, Token)>, len: nat) -> Seq<(Seq<char>, Token)>
    decreases table.len(),
{
    if table.len() == 0 {
        Seq::empty()
    } else if table.last().0.len() == len {
        of_length(table.drop_last(), len).push(table.last())
    } else {
        of_length(table.drop_last(), len)
    }
}

/// The entries of `table` whose keyword has between 1 and `longest`
/// characters: the longer keyword first, and among keywords of one length
/// the one that comes first in `table`.
pub open spec fn longest_first(table: Seq<(Seq<char>, Token)>, longest: nat) -> Seq<(Seq<char>, Token)>
    decreases longest,
{
    if longest == 0 {
        Seq::empty()
    } else {
        of_length(table, longest) + longest_first(table, (longest - 1) as nat)
    }
}

/// Length of the longest keyword of `table`.
pub open spec fn longest_keyword(table: Seq<(Seq<char>, Token)>) -> nat
    decreases table.len(),
{
    if table.len() == 0 {
        0
    } else if table.last().0.len() > longest_keyword(table.drop_last()) {
        table.last().0.len()
    } else {
        longest_keyword(table.drop_last())
    }
}

/// The table that the scanner walks: every keyword and numeral, the longer
/// first.
pub open spec fn sorted_keyword_table() -> Seq<(Seq<char>, Token)> {
    longest_first(all_keywords(), longest_keyword(all_keywords()))
}

/// No keyword of a table comes before a longer one.
pub open spec fn descending(table: Seq<(Seq<char>, Token)>) -> bool {
    forall|i: int, j: int| 0 <= i < j < table.len() ==> table[i].0.len() >= table[j].0.len()
}

proof fn lemma_of_length(table: Seq<(Seq<char>, Token)>, len: nat)
    ensures
        forall|i: int|
            0 <= i < of_length(table, len).len() ==> (#[trigger] of_length(table, len)[i]).0.len()
                == len && table.contains(of_length(table, len)[i]),
        forall|j: int|
            0 <= j < table.len() && (#[trigger] table[j]).0.len() == len ==> of_length(
                table,
                len,
            ).contains(table[j]),
    decreases table.len(),
{
    if table.len() > 0 {
        let front = table.drop_last();
        lemma_of_length(front, len);
        let picked = of_length(table, len);
        assert forall|i: int| 0 <= i < picked.len() implies (#[trigger] picked[i]).0.len() == len
            && table.contains(picked[i]) by {
            if i < of_length(front, len).len() {
                let e = of_length(front, len)[i];
                assert(front.contains(e));
                let k = choose|k: int| 0 <= k < front.len() && front[k] == e;
                assert(table[k] == e);
            } else {
                assert(table[table.len() - 1] == table.last());
            }
        }
        assert forall|j: int| 0 <= j < table.len() && (#[trigger] table[j]).0.len() == len implies picked.contains(
            table[j],
        ) by {
            if j < front.len() {
                assert(front[j] == table[j]);
                let e = table[j];
                assert(of_length(front, len).contains(e));
                let k = choose|k: int| 0 <= k < of_length(front, len).len() && of_length(front, len)[k] == e;
                assert(picked[k] == e);
            } else {
                assert(picked[picked.len() - 1] == table[j]);
            }
        }
    }
}

proof fn lemma_longest_keyword(table: Seq<(Seq<char>, Token)>)
    ensures
        forall|j: int| 0 <= j < table.len() ==> (#[trigger] table[j]).0.len() <= longest_keyword(table),
    decreases table.len(),
{
    if table.len() > 0 {
        lemma_longest_keyword(table.drop_last());
        assert forall|j: int| 0 <= j < table.len() implies (#[trigger] table[j]).0.len() <= longest_keyword(
            table,
        ) by {
            if j < table.len() - 1 {
                assert(table.drop_last()[j] == table[j]);
            }
        }
    }
}

/// A table in longest-first order is descending, holds only keywords of
/// the table it was made from, with lengths from 1 to `longest`, and holds
/// each of those.
pub proof fn lemma_longest_first(table: Seq<(Seq<char>, Token)>, longest: nat)
    ensures
        descending(longest_first(table, longest)),
        forall|i: int|
            0 <= i < longest_first(table, longest).len() ==> 1 <= (#[trigger] longest_first(
                table,
                longest,
            )[i]).0.len() <= longest && table.contains(longest_first(table, longest)[i]),
        forall|j: int|
            0 <= j < table.len() && 1 <= (#[trigger] table[j]).0.len() <= longest
                ==> longest_first(table, longest).contains(table[j]),
    decreases longest,
{
    if longest > 0 {
        let head = of_length(table, longest);
        let tail = longest_first(table, (longest - 1) as nat);
        let whole = longest_first(table, longest);
        lemma_of_length(table, longest);
        lemma_longest_first(table, (longest - 1) as nat);
        assert forall|i: int| 0 <= i < whole.len() implies 1 <= (#[trigger] whole[i]).0.len() <= longest
            && table.contains(whole[i]) by {
            if i < head.len() {
                assert(whole[i] == head[i]);
            } else {
                assert(whole[i] == tail[i - head.len()]);
            }
        }
        assert forall|i: int, j: int| 0 <= i < j < whole.len() implies whole[i].0.len() >= whole[j].0.len() by {
            if i < head.len() {
                assert(whole[i] == head[i]);
            } else {
                assert(whole[i] == tail[i - head.len()]);
            }
            if j < head.len() {
                assert(whole[j] == head[j]);
            } else {
                assert(whole[j] == tail[j - head.len()]);
            }
        }
        assert forall|j: int| 0 <= j < table.len() && 1 <= (#[trigger] table[j]).0.len() <= longest implies whole.contains(
            table[j],
        ) by {
            let e = table[j];
            if e.0.len() == longest {
                assert(head.contains(e));
                let k = choose|k: int| 0 <= k < head.len() && head[k] == e;
                assert(whole[k] == e);
            } else {
                assert(tail.contains(e));
                let k = choose|k: int| 0 <= k < tail.len() && tail[k] == e;
                assert(whole[head.len() + k] == e);
            }
        }
    }
}

/// The scanner's table is descending and holds exactly the keywords and
/// numerals.
pub proof fn lemma_sorted_keyword_table()
    ensures
        descending(sorted_keyword_table()),
        forall|i: int|
            0 <= i < sorted_keyword_table().len() ==> all_keywords().contains(
                #[trigger] sorted_keyword_table()[i],
            ),
        forall|j: int|
            0 <= j < all_keywords().len() && (#[trigger] all_keywords()[j]).0.len() >= 1
                ==> sorted_keyword_table().contains(all_keywords()[j]),
{
    lemma_longest_first(all_keywords(), longest_keyword(all_keywords()));
    lemma_longest_keyword(all_keywords());
}

fn define(table: &mut Vec<Keyword>, text: Vec<char>, token: Token)
    ensures
        table_view(final(table)@) == table_view(old(table)@).push((text@, token)),
{
    let ghost before = table_view(table@);
    table.push((text, token));
    assert(table_view(table@) =~= before.push((text@, token)));
}

fn define1(table: &mut Vec<Keyword>, a: char, token: Token)
    ensures
        table_view(final(table)@) == table_view(old(table)@).push((seq![a], token)),
{
    let mut text: Vec<char> = Vec::new();
    text.push(a);
    assert(text@ =~= seq![a]);
    define(table, text, token);
}

fn define2(table: &mut Vec<Keyword>, a: char, b: char, token: Token)
    ensures
        table_view(final(table)@) == table_view(old(table)@).push((seq![a, b], token)),
{
    let mut text: Vec<char> = Vec::new();
    text.push(a);
    text.push(b);
    assert(text@ =~= seq![a, b]);
    define(table, text, token);
}

fn define3(table: &mut Vec<Keyword>, a: char, b: char, c: char, token: Token)
    ensures
        table_view(final(table)@) == table_view(old(table)@).push((seq![a, b, c], token)),
{
    let mut text: Vec<char> = Vec::new();
    text.push(a);
    text.push(b);
    text.push(c);
    assert(text@ =~= seq![a, b, c]);
    define(table, text, token);
}

fn define4(table: &mut Vec<Keyword>, a: char, b: char, c: char, d: char, token: Token)
    ensures
        table_view(final(table)@) == table_view(old(table)@).push((seq![a, b, c, d], token)),
{
    let mut text: Vec<char> = Vec::new();
    text.push(a);
    text.push(b);
    text.push(c);
    text.push(d);
    assert(text@ =~= seq![a, b, c, d]);
    define(table, text, token);
}

fn define_declaration(table: &mut Vec<Keyword>)
    ensures
        table_view(final(table)@) == table_view(old(table)@) + declaration_keywords(),
{
    let ghost before = table_view(table@);
    define2(table, '吾', '有', Token::Decl);
    define2(table, '今', '有', Token::Decl);
    define1(table, '有', Token::DeclShort);
    define1(table, '數', Token::Type);
    define1(table, '言', Token::Type);
    define1(table, '爻', Token::Type);
    define2(table, '書', '之', Token::Print);
    define3(table, '名', '之', '曰', Token::NameIs);
    define1(table, '曰', Token::Is);
    assert(table_view(table@) =~= before + declaration_keywords());
}

fn define_arithmetic(table: &mut Vec<Keyword>)
    ensures
        table_view(final(table)@) == table_view(old(table)@) + arithmetic_keywords(),
{
    let ghost before = table_view(table@);
    define1(table, '陰', Token::False);
    define1(table, '陽', Token::True);
    define1(table, '加', Token::Plus);
    define1(table, '減', Token::Minus);
    define1(table, '乘', Token::Star);
    define1(table, '於', Token::PrepositionLeft);
    define1(table, '以', Token::PrepositionRight);
    assert(table_view(table@) =~= before + arithmetic_keywords());
}

fn define_comparison(table: &mut Vec<Keyword>)
    ensures
        table_view(final(table)@) == table_view(old(table)@) + comparison_keywords(),
{
    let ghost before = table_view(table@);
    define2(table, '等', '於', Token::EqualEqual);
    define3(table, '不', '等', '於', Token::BangEqual);
    define3(table, '不', '大', '於', Token::BangGreater);
    define3(table, '不', '小', '於', Token::BangLess);
    define2(table, '大', '於', Token::Greater);
    define2(table, '小', '於', Token::Less);
    assert(table_view(table@) =~= before + comparison_keywords());
}

fn define_assignment(table: &mut Vec<Keyword>)
    ensures
        table_view(final(table)@) == table_view(old(table)@) + assignment_keywords(),
{
    let ghost before = table_view(table@);
    define2(table, '昔', '之', Token::AssignFrom);
    define1(table, '今', Token::AssignTo);
    define1(table, '者', Token::Conjunction);
    define1(table, '其', Token::Prev);
    define2(table, '是', '矣', Token::Sure);
    assert(table_view(table@) =~= before + assignment_keywords());
}

fn define_control(table: &mut Vec<Keyword>)
    ensures
        table_view(final(table)@) == table_view(old(table)@) + control_keywords(),
{
    let ghost before = table_view(table@);
    define1(table, '若', Token::If);
    define2(table, '若', '非', Token::Else);
    define2(table, '云', '云', Token::YunYun);
    define1(table, '也', Token::Ye);
    define1(table, '變', Token::Invert);
    define1(table, '夫', Token::Fu);
    define4(table, '中', '無', '陰', '乎', Token::And);
    define4(table, '中', '有', '陽', '乎', Token::Or);
    define3(table, '恆', '為', '是', Token::Loop);
    define2(table, '為', '是', Token::For);
    define1(table, '遍', Token::ForMid);
    define2(table, '乃', '止', Token::Break);
    assert(table_view(table@) =~= before + control_keywords());
}

fn define_function(table: &mut Vec<Keyword>)
    ensures
        table_view(final(table)@) == table_view(old(table)@) + function_keywords(),
{
    let ghost before = table_view(table@);
    define4(table, '吾', '有', '一', '術', Token::Fun);
    define4(table, '欲', '行', '是', '術', Token::FunctionReady);
    define3(table, '必', '先', '得', Token::FunctionArg);
    define3(table, '是', '術', '曰', Token::FunctionBodyBegin);
    define2(table, '是', '謂', Token::FunctionEnd1);
    define3(table, '之', '術', '也', Token::FunctionEnd2);
    define1(table, '施', Token::Call);
    define2(table, '乃', '得', Token::Return);
    assert(table_view(table@) =~= before + function_keywords());
}

pub fn get_keywords() -> (table: Vec<Keyword>)
    ensures
        table_view(table@) == keyword_table(),
{
    let mut table: Vec<Keyword> = Vec::new();
    assert(table_view(table@) =~= Seq::empty());
    define_declaration(&mut table);
    define_arithmetic(&mut table);
    define_comparison(&mut table);
    define_assignment(&mut table);
    define_control(&mut table);
    define_function(&mut table);
    assert(table_view(table@) =~= keyword_table());
    table
}

pub fn get_number_keywords() -> (digits: [char; 40])
    ensures
        digits@ == numerals(),
{
    let digits: [char; 40] = [
        '負', '又', '零', '〇', '一', '二', '三', '四', '五', '六', '七', '八', '九', '十', '百',
        '千', '萬', '億', '兆', '京', '垓', '秭', '穰', '溝', '澗', '正', '載', '極', '分', '釐',
        '毫', '絲', '忽', '微', '纖', '沙', '塵', '埃', '渺', '漠',
    ];
    assert(digits@ =~= numerals());
    digits
}

fn copy_text(text: &Vec<char>) -> (copy: Vec<char>)
    ensures
        copy@ == text@,
{
    let mut copy: Vec<char> = Vec::new();
    let mut i: usize = 0;
    while i < text.len()
        invariant
            i <= text@.len(),
            copy@ == text@.take(i as int),
        decreases text@.len() - i,
    {
        copy.push(text[i]);
        assert(text@.take(i + 1) =~= text@.take(i as int).push(text@[i as int]));
        i += 1;
    }
    assert(text@.take(i as int) =~= text@);
    copy
}

fn longest_of(table: &Vec<Keyword>) -> (longest: usize)
    ensures
        longest == longest_keyword(table_view(table@)),
{
    let ghost view = table_view(table@);
    let mut longest: usize = 0;
    let mut i: usize = 0;
    while i < table.len()
        invariant
            i <= table@.len(),
            view == table_view(table@),
            longest == longest_keyword(view.take(i as int)),
        decreases table@.len() - i,
    {
        assert(view.take(i + 1).drop_last() =~= view.take(i as int));
        if table[i].0.len() > longest {
            longest = table[i].0.len();
        }
        i += 1;
    }
    assert(view.take(i as int) =~= view);
    longest
}

fn append_of_length(sorted: &mut Vec<Keyword>, table: &Vec<Keyword>, len: usize)
    ensures
        table_view(final(sorted)@) == table_view(old(sorted)@) + of_length(table_view(table@), len as nat),
{
    let ghost view = table_view(table@);
    let ghost before = table_view(sorted@);
    let mut i: usize = 0;
    assert(table_view(sorted@) =~= before + of_length(view.take(0), len as nat));
    while i < table.len()
        invariant
            i <= table@.len(),
            view == table_view(table@),
            table_view(sorted@) == before + of_length(view.take(i as int), len as nat),
        decreases table@.len() - i,
    {
        assert(view.take(i + 1).drop_last() =~= view.take(i as int));
        if table[i].0.len() == len {
            let text = copy_text(&table[i].0);
            let token = table[i].1.duplicate();
            let ghost entry = (text@, token);
            let ghost so_far = table_view(sorted@);
            sorted.push((text, token));
            assert(table_view(sorted@) =~= so_far.push(entry));
            assert(so_far.push(entry) =~= before + of_length(view.take(i as int), len as nat).push(
                entry,
            ));
        }
        i += 1;
    }
    assert(view.take(i as int) =~= view);
}

/// The table that the scanner walks: every keyword and numeral, the longer
/// first.
pub fn get_sorted_keywords() -> (sorted: Vec<Keyword>)
    ensures
        table_view(sorted@) == sorted_keyword_table(),
{
    let mut table = get_keywords();
    let digits = get_number_keywords();
    let mut i: usize = 0;
    assert(table_view(table@) =~= keyword_table() + numeral_keywords(0));
    while i < 40
        invariant
            i <= 40,
            digits@ == numerals(),
            table_view(table@) == keyword_table() + numeral_keywords(i as nat),
        decreases 40 - i,
    {
        let ghost before = table_view(table@);
        define1(&mut table, digits[i], Token::Number);
        assert(before.push((seq![digits@[i as int]], Token::Number)) =~= keyword_table()
            + numeral_keywords((i + 1) as nat));
        i += 1;
    }
    let longest = longest_of(&table);
    let ghost view = table_view(table@);
    let mut sorted: Vec<Keyword> = Vec::new();
    let mut len: usize = longest;
    assert(table_view(sorted@) =~= Seq::empty());
    while len > 0
        invariant
            len <= longest,
            view == table_view(table@),
            table_view(sorted@) + longest_first(view, len as nat) == longest_first(view, longest as nat),
        decreases len,
    {
        let ghost so_far = table_view(sorted@);
        append_of_length(&mut sorted, &table, len);
        assert((so_far + of_length(view, len as nat)) + longest_first(view, (len - 1) as nat) =~= so_far
            + longest_first(view, len as nat));
        len -= 1;
    }
    assert(table_view(sorted@) + longest_first(view, 0) =~= table_view(sorted@));
    sorted
}

} // verus!
