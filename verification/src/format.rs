//! The chicken and minichicken text formats: a file is a list of sections,
//! each a list of values.
//!
//! * chicken: each value `v` is a line of `v + 1` words `chicken`; sections
//!   are separated by an empty line.
//! * minichicken: each value `v` is the numeral of `v + 1`; values are
//!   separated by spaces and sections by the token `0`.
use vstd::prelude::*;
use crate::text::{dec, push_decimal, split_ws, split_lines, trim_end_newlines, parse_u64_spec, char_rows, trim_end_newlines_in_place, split_whitespace, lines_of, parse_u64};
use crate::outside::chars_to_string;
use crate::error::{ChickenError, ErrorView, result_view};

verus! {

broadcast use vstd::string::group_string_axioms;

/// The word `chicken`.
pub open spec fn chicken_word() -> Seq<char> {
    seq!['c', 'h', 'i', 'c', 'k', 'e', 'n']
}

/// The chicken line of value `v`: `v + 1` words `chicken` separated by spaces.
pub open spec fn chicken_line_text(v: nat) -> Seq<char>
    decreases v,
{
    if v == 0 {
        chicken_word()
    } else {
        chicken_line_text((v - 1) as nat) + seq![' '] + chicken_word()
    }
}

/// The minichicken numeral of a value: the value plus one, in decimal.
pub open spec fn numeral(v: u64) -> Seq<char> {
    dec(v as nat + 1)
}

/// One minichicken section: the numerals of its values separated by spaces.
pub open spec fn mini_section_text(vals: Seq<u64>) -> Seq<char>
    decreases vals.len(),
{
    if vals.len() == 0 {
        Seq::empty()
    } else if vals.len() == 1 {
        numeral(vals[0])
    } else {
        mini_section_text(vals.drop_last()) + seq![' '] + numeral(vals.last())
    }
}

/// A minichicken file: sections joined by ` 0 `.
pub open spec fn mini_text(secs: Seq<Seq<u64>>) -> Seq<char>
    decreases secs.len(),
{
    if secs.len() == 0 {
        Seq::empty()
    } else if secs.len() == 1 {
        mini_section_text(secs[0])
    } else {
        mini_text(secs.drop_last()) + seq![' ', '0', ' '] + mini_section_text(secs.last())
    }
}

/// The chicken lines of one section.
pub open spec fn section_lines(vals: Seq<u64>) -> Seq<Seq<char>> {
    vals.map_values(|v: u64| chicken_line_text(v as nat))
}

/// The lines of a chicken file: the sections' lines with an empty line between sections.
pub open spec fn chicken_lines(secs: Seq<Seq<u64>>) -> Seq<Seq<char>>
    decreases secs.len(),
{
    if secs.len() == 0 {
        Seq::empty()
    } else if secs.len() == 1 {
        section_lines(secs[0])
    } else {
        chicken_lines(secs.drop_last()).push(Seq::empty()) + section_lines(secs.last())
    }
}

/// Lines joined by line feeds.
pub open spec fn join_lines(ls: Seq<Seq<char>>) -> Seq<char>
    decreases ls.len(),
{
    if ls.len() == 0 {
        Seq::empty()
    } else if ls.len() == 1 {
        ls[0]
    } else {
        join_lines(ls.drop_last()) + seq!['\n'] + ls.last()
    }
}

/// The text of a list of sections in either format.
pub open spec fn serialize_spec(secs: Seq<Seq<u64>>, minichicken: bool) -> Seq<char> {
    if minichicken {
        mini_text(secs)
    } else {
        join_lines(chicken_lines(secs))
    }
}

/// Views of a vector of value vectors.
pub open spec fn value_rows(v: Seq<Vec<u64>>) -> Seq<Seq<u64>> {
    v.map_values(|x: Vec<u64>| x@)
}

/// Every value of every section is below `u64::MAX` (so that `v + 1` exists).
pub open spec fn values_below_max(secs: Seq<Seq<u64>>) -> bool {
    forall|i: int, j: int|
        0 <= i < secs.len() && 0 <= j < secs[i].len() ==> #[trigger] secs[i][j] < u64::MAX
}

/// Build a single chicken line representing `value` (offset +1 applied):
/// the word `chicken` repeated `value + 1` times, space separated.
fn chicken_line(value: u64) -> (line: String)
    requires
        value < u64::MAX,
    ensures
        line@ == chicken_line_text(value as nat),
{
    proof {
        reveal_strlit("chicken");
    }
    let mut line = String::from_str("chicken");
    let mut k: u64 = 0;
    while k < value
        invariant
            k <= value,
            line@ == chicken_line_text(k as nat),
        decreases value - k,
    {
        proof {
            reveal_strlit(" chicken");
        }
        line.append(" chicken");
        k += 1;
        assert(line@ =~= chicken_line_text((k - 1) as nat) + seq![' '] + chicken_word());
    }
    line
}

/// Append one line to a text made of `lines` joined by line feeds;
/// `any_line` tells whether there is a line before it.
fn push_line(out: &mut String, any_line: bool, line: &str, Ghost(lines): Ghost<Seq<Seq<char>>>)
    requires
        old(out)@ == join_lines(lines),
        any_line == (lines.len() > 0),
    ensures
        final(out)@ == join_lines(lines.push(line@)),
{
    proof {
        reveal_strlit("\n");
    }
    if any_line {
        out.append("\n");
    }
    out.append(line);
    assert(lines.push(line@).drop_last() =~= lines);
}

/// Serialize sections in the chicken or minichicken format.
pub(crate) fn serialize_chicken_sections(sections: &Vec<Vec<u64>>, minichicken: bool) -> (text: String)
    requires
        values_below_max(value_rows(sections@)),
    ensures
        text@ == serialize_spec(value_rows(sections@), minichicken),
{
    let ghost secs = value_rows(sections@);
    let mut out = String::new();
    if minichicken {
        let mut i: usize = 0;
        while i < sections.len()
            invariant
                secs == value_rows(sections@),
                values_below_max(secs),
                i <= sections.len(),
                out@ == mini_text(secs.take(i as int)),
            decreases sections.len() - i,
        {
            let section = &sections[i];
            proof {
                reveal_strlit(" ");
                reveal_strlit(" 0 ");
            }
            if i > 0 {
                out.append(" 0 ");
            }
            let ghost prefix = out@;
            let mut j: usize = 0;
            while j < section.len()
                invariant
                    secs == value_rows(sections@),
                    values_below_max(secs),
                    i < sections.len(),
                    section@ == secs[i as int],
                    j <= section.len(),
                    out@ == prefix + mini_section_text(section@.take(j as int)),
                decreases section.len() - j,
            {
                proof {
                    reveal_strlit(" ");
                }
                if j > 0 {
                    out.append(" ");
                }
                assert(secs[i as int][j as int] < u64::MAX);
                push_decimal(&mut out, section[j] + 1);
                assert(section@.take(j + 1).drop_last() =~= section@.take(j as int));
                j += 1;
            }
            assert(section@.take(section.len() as int) =~= section@);
            assert(secs.take(i + 1).drop_last() =~= secs.take(i as int));
            i += 1;
        }
        assert(secs.take(sections.len() as int) =~= secs);
    } else {
        let ghost mut lines: Seq<Seq<char>> = Seq::empty();
        let mut any_line = false;
        let mut i: usize = 0;
        while i < sections.len()
            invariant
                secs == value_rows(sections@),
                values_below_max(secs),
                i <= sections.len(),
                lines == chicken_lines(secs.take(i as int)),
                any_line == (lines.len() > 0),
                out@ == join_lines(lines),
            decreases sections.len() - i,
        {
            let section = &sections[i];
            proof {
                reveal_strlit("");
                assert(""@ =~= Seq::<char>::empty());
            }
            if i > 0 {
                push_line(&mut out, any_line, "", Ghost(lines));
                proof {
                    lines = lines.push(Seq::empty());
                }
                any_line = true;
            }
            let ghost base = lines;
            let mut j: usize = 0;
            while j < section.len()
                invariant
                    secs == value_rows(sections@),
                    values_below_max(secs),
                    i < sections.len(),
                    section@ == secs[i as int],
                    j <= section.len(),
                    lines == base + section_lines(section@.take(j as int)),
                    any_line == (lines.len() > 0),
                    out@ == join_lines(lines),
                decreases section.len() - j,
            {
                assert(secs[i as int][j as int] < u64::MAX);
                let line = chicken_line(section[j]);
                push_line(&mut out, any_line, line.as_str(), Ghost(lines));
                proof {
                    lines = lines.push(line@);
                    assert(base + section_lines(section@.take(j + 1)) =~= lines);
                }
                any_line = true;
                j += 1;
            }
            assert(section@.take(section.len() as int) =~= section@);
            assert(secs.take(i + 1).drop_last() =~= secs.take(i as int));
            i += 1;
        }
        assert(secs.take(sections.len() as int) =~= secs);
    }
    out
}

} // verus!

verus! {

// ---------------------------------------------------------------------------
// Parsing
// ---------------------------------------------------------------------------

/// Finished sections and the section being read.
pub type SectionState = (Seq<Seq<u64>>, Seq<u64>);

/// The first word at or after position `i` that is not `chicken`.
pub open spec fn first_non_chicken(words: Seq<Seq<char>>, i: int) -> Option<Seq<char>>
    decreases words.len() - i,
{
    if i < 0 || i >= words.len() {
        None
    } else if words[i] != chicken_word() {
        Some(words[i])
    } else {
        first_non_chicken(words, i + 1)
    }
}

/// The value of a chicken line given its words: the number of words minus one.
pub open spec fn line_value(words: Seq<Seq<char>>) -> Result<u64, ErrorView> {
    match first_non_chicken(words, 0) {
        Some(w) => Err(ErrorView::UnexpectedToken(w)),
        None => if words.len() == 0 {
            Err(ErrorView::EmptyChickenLine)
        } else {
            Ok((words.len() - 1) as u64)
        },
    }
}

/// One minichicken token: `0` starts a new section, a numeral `k > 0` adds `k - 1`.
pub open spec fn mini_step(st: Result<SectionState, ErrorView>, tok: Seq<char>) -> Result<SectionState, ErrorView> {
    match st {
        Err(e) => Err(e),
        Ok(s) => if tok == seq!['0'] {
            Ok((s.0.push(s.1), Seq::empty()))
        } else {
            match parse_u64_spec(tok) {
                None => Err(ErrorView::InvalidNumber(tok)),
                Some(v) => if v == 0 {
                    Err(ErrorView::BelowOffset(0))
                } else {
                    Ok((s.0, s.1.push((v - 1) as u64)))
                },
            }
        },
    }
}

pub open spec fn mini_fold(st: Result<SectionState, ErrorView>, toks: Seq<Seq<char>>) -> Result<SectionState, ErrorView>
    decreases toks.len(),
{
    if toks.len() == 0 {
        st
    } else {
        mini_step(mini_fold(st, toks.drop_last()), toks.last())
    }
}

/// The sections of a minichicken token list.
pub open spec fn mini_parse(toks: Seq<Seq<char>>) -> Result<Seq<Seq<u64>>, ErrorView> {
    match mini_fold(Ok((Seq::empty(), Seq::empty())), toks) {
        Ok(s) => Ok(s.0.push(s.1)),
        Err(e) => Err(e),
    }
}

/// One chicken line: a blank line closes a nonempty section, any other line
/// adds its value.
pub open spec fn chicken_step(st: Result<SectionState, ErrorView>, line: Seq<char>) -> Result<SectionState, ErrorView> {
    match st {
        Err(e) => Err(e),
        Ok(s) => {
            let words = split_ws(line);
            if words.len() == 0 {
                if s.1.len() > 0 {
                    Ok((s.0.push(s.1), Seq::empty()))
                } else {
                    Ok(s)
                }
            } else {
                match line_value(words) {
                    Err(e) => Err(e),
                    Ok(v) => Ok((s.0, s.1.push(v))),
                }
            }
        },
    }
}

pub open spec fn chicken_fold(st: Result<SectionState, ErrorView>, lines: Seq<Seq<char>>) -> Result<SectionState, ErrorView>
    decreases lines.len(),
{
    if lines.len() == 0 {
        st
    } else {
        chicken_step(chicken_fold(st, lines.drop_last()), lines.last())
    }
}

/// The sections of a list of chicken lines; a trailing empty section is dropped.
pub open spec fn chicken_parse(lines: Seq<Seq<char>>) -> Result<Seq<Seq<u64>>, ErrorView> {
    match chicken_fold(Ok((Seq::empty(), Seq::empty())), lines) {
        Ok(s) => Ok(if s.1.len() > 0 { s.0.push(s.1) } else { s.0 }),
        Err(e) => Err(e),
    }
}

/// The sections of a chicken or minichicken text. The format is minichicken
/// when the first token is not `chicken`.
pub open spec fn parse_spec(input: Seq<char>) -> Result<Seq<Seq<u64>>, ErrorView> {
    let trimmed = trim_end_newlines(input);
    let toks = split_ws(trimmed);
    if toks.len() == 0 {
        Err(ErrorView::EmptyInput)
    } else if toks[0] != chicken_word() {
        mini_parse(toks)
    } else {
        chicken_parse(split_lines(trimmed))
    }
}

/// The format is minichicken when the first token is not `chicken`.
pub open spec fn is_minichicken_spec(input: Seq<char>) -> bool {
    split_ws(input).len() > 0 && split_ws(input)[0] != chicken_word()
}

/// Whether a word is `chicken`.
pub(crate) fn is_chicken_word(w: &Vec<char>) -> (res: bool)
    ensures
        res == (w@ == chicken_word()),
{
    let r = w.len() == 7 && w[0] == 'c' && w[1] == 'h' && w[2] == 'i' && w[3] == 'c' && w[4] == 'k'
        && w[5] == 'e' && w[6] == 'n';
    proof {
        if r {
            assert(w@ =~= chicken_word());
        }
    }
    r
}

/// The value of a chicken line, given its words.
fn parse_chicken_line(words: &Vec<Vec<char>>) -> (res: Result<u64, ChickenError>)
    ensures
        result_view(res) == line_value(char_rows(words@)),
{
    let ghost ws = char_rows(words@);
    let count = words.len() as u64;
    let mut i: usize = 0;
    while i < words.len()
        invariant
            ws == char_rows(words@),
            i <= words.len(),
            first_non_chicken(ws, 0) == first_non_chicken(ws, i as int),
        decreases words.len() - i,
    {
        if !is_chicken_word(&words[i]) {
            assert(ws[i as int] == words[i as int]@);
            return Err(ChickenError::UnexpectedToken(chars_to_string(&words[i])));
        }
        assert(ws[i as int] == chicken_word());
        i += 1;
    }
    if count == 0 {
        return Err(ChickenError::EmptyChickenLine);
    }
    Ok(count - 1)
}

} // verus!

verus! {

pub proof fn lemma_mini_fold_concat(st: Result<SectionState, ErrorView>, a: Seq<Seq<char>>, b: Seq<Seq<char>>)
    ensures
        mini_fold(st, a + b) == mini_fold(mini_fold(st, a), b),
    decreases b.len(),
{
    if b.len() == 0 {
        assert(a + b =~= a);
    } else {
        lemma_mini_fold_concat(st, a, b.drop_last());
        assert((a + b).drop_last() =~= a + b.drop_last());
        assert((a + b).last() == b.last());
    }
}

pub proof fn lemma_mini_fold_err(e: ErrorView, toks: Seq<Seq<char>>)
    ensures
        mini_fold(Err(e), toks) == Err::<SectionState, ErrorView>(e),
    decreases toks.len(),
{
    if toks.len() > 0 {
        lemma_mini_fold_err(e, toks.drop_last());
    }
}

pub proof fn lemma_chicken_fold_concat(st: Result<SectionState, ErrorView>, a: Seq<Seq<char>>, b: Seq<Seq<char>>)
    ensures
        chicken_fold(st, a + b) == chicken_fold(chicken_fold(st, a), b),
    decreases b.len(),
{
    if b.len() == 0 {
        assert(a + b =~= a);
    } else {
        lemma_chicken_fold_concat(st, a, b.drop_last());
        assert((a + b).drop_last() =~= a + b.drop_last());
        assert((a + b).last() == b.last());
    }
}

pub proof fn lemma_chicken_fold_err(e: ErrorView, lines: Seq<Seq<char>>)
    ensures
        chicken_fold(Err(e), lines) == Err::<SectionState, ErrorView>(e),
    decreases lines.len(),
{
    if lines.len() > 0 {
        lemma_chicken_fold_err(e, lines.drop_last());
    }
}

/// A fold that has failed at position `i` fails on the whole input.
proof fn lemma_mini_fails_at(toks: Seq<Seq<char>>, i: int, e: ErrorView)
    requires
        0 <= i < toks.len(),
        mini_fold(Ok((Seq::empty(), Seq::empty())), toks.take(i + 1)) == Err::<SectionState, ErrorView>(e),
    ensures
        mini_parse(toks) == Err::<Seq<Seq<u64>>, ErrorView>(e),
{
    lemma_mini_fold_concat(Ok((Seq::empty(), Seq::empty())), toks.take(i + 1), toks.skip(i + 1));
    lemma_mini_fold_err(e, toks.skip(i + 1));
    assert(toks.take(i + 1) + toks.skip(i + 1) =~= toks);
}

proof fn lemma_chicken_fails_at(lines: Seq<Seq<char>>, i: int, e: ErrorView)
    requires
        0 <= i < lines.len(),
        chicken_fold(Ok((Seq::empty(), Seq::empty())), lines.take(i + 1)) == Err::<SectionState, ErrorView>(e),
    ensures
        chicken_parse(lines) == Err::<Seq<Seq<u64>>, ErrorView>(e),
{
    lemma_chicken_fold_concat(Ok((Seq::empty(), Seq::empty())), lines.take(i + 1), lines.skip(i + 1));
    lemma_chicken_fold_err(e, lines.skip(i + 1));
    assert(lines.take(i + 1) + lines.skip(i + 1) =~= lines);
}

} // verus!

verus! {

/// A parse result taken by view.
pub open spec fn sections_view(r: Result<Vec<Vec<u64>>, ChickenError>) -> Result<Seq<Seq<u64>>, ErrorView> {
    match r {
        Ok(v) => Ok(value_rows(v@)),
        Err(e) => Err(e@),
    }
}

/// Read the sections of a chicken or minichicken text.
pub(crate) fn parse_chicken_sections(input: &Vec<char>) -> (res: Result<Vec<Vec<u64>>, ChickenError>)
    ensures
        sections_view(res) == parse_spec(input@),
{
    let mut trimmed = input.clone();
    trim_end_newlines_in_place(&mut trimmed);
    let toks = split_whitespace(&trimmed);
    if toks.len() == 0 {
        return Err(ChickenError::EmptyInput);
    }
    let ghost tv = char_rows(toks@);
    assert(tv[0] == toks[0]@);
    let mut done: Vec<Vec<u64>> = Vec::new();
    let mut cur: Vec<u64> = Vec::new();
    assert(value_rows(done@) =~= Seq::<Seq<u64>>::empty());
    assert(cur@ =~= Seq::<u64>::empty());
    if !is_chicken_word(&toks[0]) {
        let mut i: usize = 0;
        while i < toks.len()
            invariant
                tv == char_rows(toks@),
                tv == split_ws(trim_end_newlines(input@)),
                tv.len() > 0,
                tv[0] != chicken_word(),
                i <= toks.len(),
                mini_fold(Ok((Seq::empty(), Seq::empty())), tv.take(i as int))
                    == Ok::<SectionState, ErrorView>((value_rows(done@), cur@)),
            decreases toks.len() - i,
        {
            let tok = &toks[i];
            assert(tv.take(i + 1).drop_last() =~= tv.take(i as int));
            assert(tv.take(i + 1).last() == tok@);
            if tok.len() == 1 && tok[0] == '0' {
                assert(tok@ =~= seq!['0']);
                let section = cur;
                cur = Vec::new();
                let ghost before = done@;
                done.push(section);
                assert(value_rows(done@) =~= value_rows(before).push(section@));
            } else {
                assert(tok@ != seq!['0']) by {
                    if tok@ == seq!['0'] {
                        assert(tok@.len() == 1 && tok@[0] == '0');
                    }
                }
                match parse_u64(tok) {
                    None => {
                        proof {
                            lemma_mini_fails_at(tv, i as int, ErrorView::InvalidNumber(tok@));
                        }
                        return Err(ChickenError::InvalidNumber(chars_to_string(tok)));
                    },
                    Some(stored) => {
                        if stored == 0 {
                            proof {
                                lemma_mini_fails_at(tv, i as int, ErrorView::BelowOffset(0));
                            }
                            return Err(ChickenError::BelowOffset(stored));
                        }
                        cur.push(stored - 1);
                    },
                }
            }
            i += 1;
        }
        assert(tv.take(toks.len() as int) =~= tv);
        let ghost before = done@;
        done.push(cur);
        assert(value_rows(done@) =~= value_rows(before).push(cur@));
        Ok(done)
    } else {
        let lines = lines_of(&trimmed);
        let ghost lv = char_rows(lines@);
        let mut i: usize = 0;
        while i < lines.len()
            invariant
                lv == char_rows(lines@),
                lv == split_lines(trim_end_newlines(input@)),
                split_ws(trim_end_newlines(input@)).len() > 0,
                split_ws(trim_end_newlines(input@))[0] == chicken_word(),
                i <= lines.len(),
                chicken_fold(Ok((Seq::empty(), Seq::empty())), lv.take(i as int))
                    == Ok::<SectionState, ErrorView>((value_rows(done@), cur@)),
            decreases lines.len() - i,
        {
            let line = &lines[i];
            assert(lv.take(i + 1).drop_last() =~= lv.take(i as int));
            assert(lv.take(i + 1).last() == line@);
            let words = split_whitespace(line);
            if words.len() == 0 {
                if cur.len() > 0 {
                    let section = cur;
                    cur = Vec::new();
                    let ghost before = done@;
                    done.push(section);
                    assert(value_rows(done@) =~= value_rows(before).push(section@));
                }
            } else {
                match parse_chicken_line(&words) {
                    Err(e) => {
                        proof {
                            lemma_chicken_fails_at(lv, i as int, e@);
                        }
                        return Err(e);
                    },
                    Ok(v) => {
                        cur.push(v);
                    },
                }
            }
            i += 1;
        }
        assert(lv.take(lines.len() as int) =~= lv);
        if cur.len() > 0 {
            let ghost before = done@;
            done.push(cur);
            assert(value_rows(done@) =~= value_rows(before).push(cur@));
        }
        Ok(done)
    }
}

} // verus!
