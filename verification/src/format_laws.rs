//! What reading gives back of writing, for both chicken formats.
use vstd::prelude::*;
use crate::text::{
    ScanState, ws_scan, ws_step, split_ws, flush, is_ws, dec, all_digits, is_digit, no_ws,
    lemma_ws_scan_concat, lemma_ws_scan_word_space, lemma_dec, lemma_parse_dec, lemma_digits_plain,
    parse_u64_spec, trim_end_newlines, no_newline, line_scan, line_step, split_lines,
    lemma_line_scan_piece, lemma_line_scan_concat,
};
use crate::format::{
    numeral, mini_section_text, mini_text, chicken_word, values_below_max, mini_fold, mini_step,
    mini_parse, SectionState, parse_spec, lemma_mini_fold_concat, chicken_line_text,
    first_non_chicken, line_value, chicken_lines, section_lines, join_lines, chicken_fold,
    chicken_step, chicken_parse, lemma_chicken_fold_concat, serialize_spec, is_minichicken_spec,
};
use crate::error::ErrorView;

verus! {

/// The minichicken numerals of a section.
pub open spec fn numerals(vals: Seq<u64>) -> Seq<Seq<char>> {
    vals.map_values(|v: u64| numeral(v))
}

/// The tokens of a minichicken file: numerals, with `0` between sections.
pub open spec fn mini_tokens(secs: Seq<Seq<u64>>) -> Seq<Seq<char>>
    decreases secs.len(),
{
    if secs.len() == 0 {
        Seq::empty()
    } else if secs.len() == 1 {
        numerals(secs[0])
    } else {
        mini_tokens(secs.drop_last()).push(seq!['0']) + numerals(secs.last())
    }
}

proof fn lemma_numeral(v: u64)
    ensures
        numeral(v).len() > 0,
        all_digits(numeral(v)),
        no_ws(numeral(v)),
        numeral(v) != seq!['0'],
{
    lemma_dec(v as nat + 1);
    lemma_digits_plain(numeral(v));
}

proof fn lemma_space_on_empty(d: Seq<Seq<char>>)
    ensures
        ws_scan((d, Seq::empty()), seq![' ']) == (d, Seq::<char>::empty()),
{
    assert((' ' as u32) == 0x20);
    assert(is_ws(' '));
    assert(seq![' '].drop_last() =~= Seq::<char>::empty());
    let st: ScanState = (d, Seq::empty());
    assert(ws_scan(st, seq![' ']) == ws_step(ws_scan(st, Seq::empty()), ' '));
}

/// Scanning a section's text and one more space yields its numerals.
proof fn lemma_scan_mini_section(d: Seq<Seq<char>>, vals: Seq<u64>)
    ensures
        ws_scan((d, Seq::empty()), mini_section_text(vals) + seq![' '])
            == (d + numerals(vals), Seq::<char>::empty()),
    decreases vals.len(),
{
    if vals.len() == 0 {
        assert(mini_section_text(vals) + seq![' '] =~= seq![' ']);
        lemma_space_on_empty(d);
        assert(d + numerals(vals) =~= d);
    } else if vals.len() == 1 {
        lemma_numeral(vals[0]);
        lemma_ws_scan_word_space(d, numeral(vals[0]));
        assert(d + numerals(vals) =~= d.push(numeral(vals[0])));
    } else {
        let pre = vals.drop_last();
        lemma_scan_mini_section(d, pre);
        lemma_numeral(vals.last());
        let a = mini_section_text(pre) + seq![' '];
        let b = numeral(vals.last()) + seq![' '];
        assert(mini_section_text(vals) + seq![' '] =~= a + b);
        lemma_ws_scan_concat((d, Seq::empty()), a, b);
        lemma_ws_scan_word_space(d + numerals(pre), numeral(vals.last()));
        assert((d + numerals(pre)).push(numeral(vals.last())) =~= d + numerals(vals));
    }
}

/// Scanning a minichicken text and one more space yields its tokens.
proof fn lemma_scan_mini_text(secs: Seq<Seq<u64>>)
    requires
        secs.len() >= 1,
    ensures
        ws_scan((Seq::empty(), Seq::empty()), mini_text(secs) + seq![' '])
            == (mini_tokens(secs), Seq::<char>::empty()),
    decreases secs.len(),
{
    if secs.len() == 1 {
        lemma_scan_mini_section(Seq::empty(), secs[0]);
        assert(Seq::<Seq<char>>::empty() + numerals(secs[0]) =~= numerals(secs[0]));
    } else {
        let pre = secs.drop_last();
        lemma_scan_mini_text(pre);
        let a = mini_text(pre) + seq![' '];
        let b = seq!['0', ' '];
        let c = mini_section_text(secs.last()) + seq![' '];
        assert(mini_text(secs) + seq![' '] =~= a + b + c);
        lemma_ws_scan_concat((Seq::empty(), Seq::empty()), a + b, c);
        lemma_ws_scan_concat((Seq::empty(), Seq::empty()), a, b);
        assert(no_ws(seq!['0'])) by {
            assert(seq!['0'][0] == '0');
        }
        assert(seq!['0'] + seq![' '] =~= b);
        lemma_ws_scan_word_space(mini_tokens(pre), seq!['0']);
        lemma_scan_mini_section(mini_tokens(pre).push(seq!['0']), secs.last());
    }
}

/// A trailing space does not change the tokens.
proof fn lemma_split_ws_trailing_space(s: Seq<char>)
    ensures
        split_ws(s + seq![' ']) == split_ws(s),
{
    let st: ScanState = (Seq::empty(), Seq::empty());
    lemma_ws_scan_concat(st, s, seq![' ']);
    assert(is_ws(' '));
    assert(seq![' '].drop_last() =~= Seq::<char>::empty());
    let mid = ws_scan(st, s);
    assert((' ' as u32) == 0x20);
    assert(ws_scan(mid, seq![' ']) == ws_step(ws_scan(mid, Seq::empty()), ' '));
}

pub proof fn lemma_mini_tokens(secs: Seq<Seq<u64>>)
    requires
        secs.len() >= 1,
    ensures
        split_ws(mini_text(secs)) == mini_tokens(secs),
{
    lemma_scan_mini_text(secs);
    lemma_split_ws_trailing_space(mini_text(secs));
}

/// Every minichicken token is a nonempty string of digits.
proof fn lemma_mini_tokens_digits(secs: Seq<Seq<u64>>)
    ensures
        forall|i: int| 0 <= i < mini_tokens(secs).len() ==> #[trigger] mini_tokens(secs)[i].len() > 0
            && all_digits(mini_tokens(secs)[i]),
        (secs.len() >= 2 || (secs.len() == 1 && secs[0].len() > 0)) ==> mini_tokens(secs).len() > 0,
    decreases secs.len(),
{
    if secs.len() == 1 {
        assert forall|i: int| 0 <= i < mini_tokens(secs).len() implies #[trigger] mini_tokens(secs)[i].len() > 0
            && all_digits(mini_tokens(secs)[i]) by {
            lemma_numeral(secs[0][i]);
        }
    } else if secs.len() >= 2 {
        let pre = secs.drop_last();
        lemma_mini_tokens_digits(pre);
        let left = mini_tokens(pre).push(seq!['0']);
        assert forall|i: int| 0 <= i < mini_tokens(secs).len() implies #[trigger] mini_tokens(secs)[i].len() > 0
            && all_digits(mini_tokens(secs)[i]) by {
            if i < mini_tokens(pre).len() {
                assert(mini_tokens(secs)[i] == mini_tokens(pre)[i]);
            } else if i == mini_tokens(pre).len() {
                assert(mini_tokens(secs)[i] == seq!['0']);
                assert(is_digit(seq!['0'][0]));
            } else {
                assert(mini_tokens(secs)[i] == numeral(secs.last()[i - left.len()]));
                lemma_numeral(secs.last()[i - left.len()]);
            }
        }
    }
}

/// Reading the numerals of a section appends the section's values.
proof fn lemma_mini_fold_numerals(d: Seq<Seq<u64>>, c: Seq<u64>, vals: Seq<u64>)
    requires
        forall|j: int| 0 <= j < vals.len() ==> #[trigger] vals[j] < u64::MAX,
    ensures
        mini_fold(Ok((d, c)), numerals(vals)) == Ok::<SectionState, ErrorView>((d, c + vals)),
    decreases vals.len(),
{
    if vals.len() == 0 {
        assert(c + vals =~= c);
    } else {
        let pre = vals.drop_last();
        lemma_mini_fold_numerals(d, c, pre);
        assert(numerals(vals).drop_last() =~= numerals(pre));
        let v = vals.last();
        lemma_numeral(v);
        lemma_parse_dec((v + 1) as u64);
        assert(parse_u64_spec(numeral(v)) == Some((v + 1) as u64));
        assert((c + pre).push(v) =~= c + vals);
    }
}

proof fn lemma_mini_fold_tokens(secs: Seq<Seq<u64>>)
    requires
        secs.len() >= 1,
        values_below_max(secs),
    ensures
        mini_fold(Ok((Seq::empty(), Seq::empty())), mini_tokens(secs))
            == Ok::<SectionState, ErrorView>((secs.drop_last(), secs.last())),
    decreases secs.len(),
{
    if secs.len() == 1 {
        assert forall|j: int| 0 <= j < secs[0].len() implies #[trigger] secs[0][j] < u64::MAX by {
            assert(secs[0][j] < u64::MAX);
        }
        lemma_mini_fold_numerals(Seq::empty(), Seq::empty(), secs[0]);
        assert(Seq::<u64>::empty() + secs[0] =~= secs[0]);
        assert(secs.drop_last() =~= Seq::<Seq<u64>>::empty());
    } else {
        let pre = secs.drop_last();
        assert(values_below_max(pre)) by {
            assert forall|i: int, j: int| 0 <= i < pre.len() && 0 <= j < pre[i].len() implies #[trigger] pre[i][j] < u64::MAX by {
                assert(pre[i] == secs[i]);
            }
        }
        lemma_mini_fold_tokens(pre);
        let st = Ok((Seq::empty(), Seq::empty()));
        let a = mini_tokens(pre);
        let b = seq![seq!['0']];
        lemma_mini_fold_concat(st, a + b, numerals(secs.last()));
        lemma_mini_fold_concat(st, a, b);
        assert(a.push(seq!['0']) =~= a + b);
        assert(b.drop_last() =~= Seq::<Seq<char>>::empty());
        assert(pre.drop_last().push(pre.last()) =~= pre);
        let mid = mini_fold(st, a);
        assert(mid == Ok::<SectionState, ErrorView>((pre.drop_last(), pre.last())));
        assert(mini_fold(mid, b) == mini_step(mini_fold(mid, Seq::empty()), seq!['0']));
        assert(mini_fold(st, a + b) == Ok::<SectionState, ErrorView>((pre, Seq::empty())));
        assert(mini_tokens(secs) == (a + b) + numerals(secs.last()));
        let last = secs.last();
        assert forall|j: int| 0 <= j < last.len() implies #[trigger] last[j] < u64::MAX by {
            assert(secs[secs.len() - 1][j] < u64::MAX);
        }
        lemma_mini_fold_numerals(pre, Seq::empty(), last);
        assert(Seq::<u64>::empty() + last =~= last);
    }
}

/// A minichicken text holds digits and spaces only.
pub open spec fn digits_and_spaces(s: Seq<char>) -> bool {
    forall|i: int| 0 <= i < s.len() ==> is_digit(#[trigger] s[i]) || s[i] == ' '
}

proof fn lemma_mini_section_plain(vals: Seq<u64>)
    ensures
        digits_and_spaces(mini_section_text(vals)),
    decreases vals.len(),
{
    if vals.len() == 1 {
        lemma_numeral(vals[0]);
    } else if vals.len() > 1 {
        lemma_mini_section_plain(vals.drop_last());
        lemma_numeral(vals.last());
        let a = mini_section_text(vals.drop_last());
        let t = mini_section_text(vals);
        assert forall|i: int| 0 <= i < t.len() implies is_digit(#[trigger] t[i]) || t[i] == ' ' by {
            if i < a.len() {
                assert(t[i] == a[i]);
            } else if i > a.len() {
                assert(t[i] == numeral(vals.last())[i - a.len() - 1]);
            }
        }
    }
}

proof fn lemma_mini_text_plain(secs: Seq<Seq<u64>>)
    ensures
        digits_and_spaces(mini_text(secs)),
    decreases secs.len(),
{
    if secs.len() == 1 {
        lemma_mini_section_plain(secs[0]);
    } else if secs.len() > 1 {
        lemma_mini_text_plain(secs.drop_last());
        lemma_mini_section_plain(secs.last());
        let a = mini_text(secs.drop_last());
        let m = mini_section_text(secs.last());
        let t = mini_text(secs);
        assert forall|i: int| 0 <= i < t.len() implies is_digit(#[trigger] t[i]) || t[i] == ' ' by {
            if i < a.len() {
                assert(t[i] == a[i]);
            } else if i >= a.len() + 3 {
                assert(t[i] == m[i - a.len() - 3]);
            } else if i == a.len() + 1 {
                assert(t[i] == '0');
            }
        }
    }
}

proof fn lemma_trim_digits_and_spaces(s: Seq<char>)
    requires
        digits_and_spaces(s),
    ensures
        trim_end_newlines(s) == s,
{
    if s.len() > 0 {
        assert(is_digit(s[s.len() - 1]) || s[s.len() - 1] == ' ');
    }
}

/// Reading a minichicken text gives back its sections, provided it has a token.
pub proof fn lemma_mini_roundtrip(secs: Seq<Seq<u64>>)
    requires
        values_below_max(secs),
        secs.len() >= 2 || (secs.len() == 1 && secs[0].len() > 0),
    ensures
        parse_spec(mini_text(secs)) == Ok::<Seq<Seq<u64>>, ErrorView>(secs),
        split_ws(mini_text(secs)).len() > 0,
        split_ws(mini_text(secs))[0] != chicken_word(),
{
    lemma_mini_text_plain(secs);
    lemma_trim_digits_and_spaces(mini_text(secs));
    lemma_mini_tokens(secs);
    lemma_mini_tokens_digits(secs);
    let toks = mini_tokens(secs);
    assert(mini_tokens(secs)[0].len() > 0);
    assert(all_digits(toks[0]));
    assert(is_digit(toks[0][0]));
    assert(toks[0] != chicken_word()) by {
        if toks[0] == chicken_word() {
            assert(toks[0][0] == 'c');
        }
    }
    lemma_mini_fold_tokens(secs);
    assert(secs.drop_last().push(secs.last()) =~= secs);
}

} // verus!

verus! {

/// `n` copies of the word `chicken`.
pub open spec fn chicken_words(n: nat) -> Seq<Seq<char>> {
    Seq::new(n, |i: int| chicken_word())
}

proof fn lemma_chicken_word_plain()
    ensures
        no_ws(chicken_word()),
        no_newline(chicken_word()),
        chicken_word().len() == 7,
        chicken_word().last() == 'n',
{
    let w = chicken_word();
    assert forall|i: int| 0 <= i < w.len() implies !is_ws(#[trigger] w[i]) by {
        assert(w[i] == 'c' || w[i] == 'h' || w[i] == 'i' || w[i] == 'k' || w[i] == 'e' || w[i] == 'n');
    }
}

/// Scanning a chicken line and one more space yields its words.
proof fn lemma_scan_chicken_line(d: Seq<Seq<char>>, v: nat)
    ensures
        ws_scan((d, Seq::empty()), chicken_line_text(v) + seq![' '])
            == (d + chicken_words(v + 1), Seq::<char>::empty()),
    decreases v,
{
    lemma_chicken_word_plain();
    if v == 0 {
        lemma_ws_scan_word_space(d, chicken_word());
        assert(d + chicken_words(1) =~= d.push(chicken_word()));
    } else {
        let v1 = (v - 1) as nat;
        lemma_scan_chicken_line(d, v1);
        let a = chicken_line_text(v1) + seq![' '];
        let b = chicken_word() + seq![' '];
        assert(chicken_line_text(v) + seq![' '] =~= a + b);
        lemma_ws_scan_concat((d, Seq::empty()), a, b);
        lemma_ws_scan_word_space(d + chicken_words(v), chicken_word());
        assert((d + chicken_words(v)).push(chicken_word()) =~= d + chicken_words(v + 1));
    }
}

proof fn lemma_split_chicken_line(v: nat)
    ensures
        split_ws(chicken_line_text(v)) == chicken_words(v + 1),
{
    lemma_scan_chicken_line(Seq::empty(), v);
    lemma_split_ws_trailing_space(chicken_line_text(v));
    assert(Seq::<Seq<char>>::empty() + chicken_words(v + 1) =~= chicken_words(v + 1));
}

proof fn lemma_first_non_chicken_none(n: nat, i: int)
    requires
        0 <= i,
    ensures
        first_non_chicken(chicken_words(n), i) == None::<Seq<char>>,
    decreases n - i,
{
    if i < n {
        lemma_first_non_chicken_none(n, i + 1);
    }
}

/// The value of a chicken line.
proof fn lemma_chicken_line_value(v: u64)
    requires
        v < u64::MAX,
    ensures
        line_value(split_ws(chicken_line_text(v as nat))) == Ok::<u64, ErrorView>(v),
{
    lemma_split_chicken_line(v as nat);
    lemma_first_non_chicken_none(v as nat + 1, 0);
}

/// No line of a chicken file holds a line feed.
proof fn lemma_chicken_line_plain(v: nat)
    ensures
        no_newline(chicken_line_text(v)),
        chicken_line_text(v).len() > 0,
        chicken_line_text(v).last() == 'n',
    decreases v,
{
    lemma_chicken_word_plain();
    if v > 0 {
        lemma_chicken_line_plain((v - 1) as nat);
        let a = chicken_line_text((v - 1) as nat);
        let t = chicken_line_text(v);
        assert forall|i: int| 0 <= i < t.len() implies #[trigger] t[i] != '\n' by {
            if i < a.len() {
                assert(t[i] == a[i]);
            } else if i > a.len() {
                assert(t[i] == chicken_word()[i - a.len() - 1]);
            }
        }
    }
}

proof fn lemma_chicken_lines_plain(secs: Seq<Seq<u64>>)
    ensures
        forall|i: int| 0 <= i < chicken_lines(secs).len() ==> no_newline(#[trigger] chicken_lines(secs)[i]),
    decreases secs.len(),
{
    if secs.len() == 1 {
        assert forall|i: int| 0 <= i < chicken_lines(secs).len() implies no_newline(#[trigger] chicken_lines(secs)[i]) by {
            lemma_chicken_line_plain(secs[0][i] as nat);
        }
    } else if secs.len() > 1 {
        let pre = secs.drop_last();
        lemma_chicken_lines_plain(pre);
        let left = chicken_lines(pre).push(Seq::empty());
        assert forall|i: int| 0 <= i < chicken_lines(secs).len() implies no_newline(#[trigger] chicken_lines(secs)[i]) by {
            if i < chicken_lines(pre).len() {
                assert(chicken_lines(secs)[i] == chicken_lines(pre)[i]);
            } else if i == chicken_lines(pre).len() {
                assert(chicken_lines(secs)[i] == Seq::<char>::empty());
            } else {
                assert(chicken_lines(secs)[i] == chicken_line_text(secs.last()[i - left.len()] as nat));
                lemma_chicken_line_plain(secs.last()[i - left.len()] as nat);
            }
        }
    }
}

/// Scanning lines joined by line feeds leaves the last line open.
proof fn lemma_line_scan_join(ls: Seq<Seq<char>>)
    requires
        ls.len() >= 1,
        forall|i: int| 0 <= i < ls.len() ==> no_newline(#[trigger] ls[i]),
    ensures
        line_scan((Seq::empty(), Seq::empty()), join_lines(ls)) == (ls.drop_last(), ls.last()),
    decreases ls.len(),
{
    if ls.len() == 1 {
        lemma_line_scan_piece((Seq::empty(), Seq::empty()), ls[0]);
        assert(Seq::<char>::empty() + ls[0] =~= ls[0]);
        assert(ls.drop_last() =~= Seq::<Seq<char>>::empty());
    } else {
        let pre = ls.drop_last();
        lemma_line_scan_join(pre);
        let st: ScanState = (Seq::empty(), Seq::empty());
        let a = join_lines(pre);
        let nl = seq!['\n'];
        lemma_line_scan_concat(st, a + nl, ls.last());
        lemma_line_scan_concat(st, a, nl);
        assert(nl.drop_last() =~= Seq::<char>::empty());
        let mid = line_scan(st, a);
        assert(line_scan(mid, nl) == line_step(line_scan(mid, Seq::empty()), '\n'));
        assert(pre.drop_last().push(pre.last()) =~= pre);
        lemma_line_scan_piece((pre, Seq::empty()), ls.last());
        assert(Seq::<char>::empty() + ls.last() =~= ls.last());
    }
}

proof fn lemma_split_lines_join(ls: Seq<Seq<char>>)
    requires
        ls.len() >= 1,
        ls.last().len() > 0,
        forall|i: int| 0 <= i < ls.len() ==> no_newline(#[trigger] ls[i]),
    ensures
        split_lines(join_lines(ls)) == ls,
{
    lemma_line_scan_join(ls);
    assert(ls.drop_last().push(ls.last()) =~= ls);
}

/// Reading the lines of one section appends its values.
proof fn lemma_chicken_fold_section(d: Seq<Seq<u64>>, c: Seq<u64>, vals: Seq<u64>)
    requires
        forall|j: int| 0 <= j < vals.len() ==> #[trigger] vals[j] < u64::MAX,
    ensures
        chicken_fold(Ok((d, c)), section_lines(vals)) == Ok::<SectionState, ErrorView>((d, c + vals)),
    decreases vals.len(),
{
    if vals.len() == 0 {
        assert(c + vals =~= c);
    } else {
        let pre = vals.drop_last();
        lemma_chicken_fold_section(d, c, pre);
        assert(section_lines(vals).drop_last() =~= section_lines(pre));
        let v = vals.last();
        lemma_chicken_line_value(v);
        lemma_split_chicken_line(v as nat);
        assert((c + pre).push(v) =~= c + vals);
    }
}

pub open spec fn all_sections_nonempty(secs: Seq<Seq<u64>>) -> bool {
    forall|i: int| 0 <= i < secs.len() ==> #[trigger] secs[i].len() > 0
}

proof fn lemma_values_below_max_prefix(secs: Seq<Seq<u64>>)
    requires
        secs.len() >= 1,
        values_below_max(secs),
    ensures
        values_below_max(secs.drop_last()),
        forall|j: int| 0 <= j < secs.last().len() ==> #[trigger] secs.last()[j] < u64::MAX,
{
    let pre = secs.drop_last();
    assert forall|i: int, j: int| 0 <= i < pre.len() && 0 <= j < pre[i].len() implies #[trigger] pre[i][j] < u64::MAX by {
        assert(pre[i] == secs[i]);
    }
    assert forall|j: int| 0 <= j < secs.last().len() implies #[trigger] secs.last()[j] < u64::MAX by {
        assert(secs[secs.len() - 1][j] < u64::MAX);
    }
}

proof fn lemma_chicken_fold_lines(secs: Seq<Seq<u64>>)
    requires
        secs.len() >= 1,
        values_below_max(secs),
        all_sections_nonempty(secs),
    ensures
        chicken_fold(Ok((Seq::empty(), Seq::empty())), chicken_lines(secs))
            == Ok::<SectionState, ErrorView>((secs.drop_last(), secs.last())),
    decreases secs.len(),
{
    lemma_values_below_max_prefix(secs);
    if secs.len() == 1 {
        lemma_chicken_fold_section(Seq::empty(), Seq::empty(), secs[0]);
        assert(Seq::<u64>::empty() + secs[0] =~= secs[0]);
        assert(secs.drop_last() =~= Seq::<Seq<u64>>::empty());
    } else {
        let pre = secs.drop_last();
        assert(all_sections_nonempty(pre)) by {
            assert forall|i: int| 0 <= i < pre.len() implies #[trigger] pre[i].len() > 0 by {
                assert(pre[i] == secs[i]);
            }
        }
        lemma_chicken_fold_lines(pre);
        let st = Ok((Seq::empty(), Seq::empty()));
        let a = chicken_lines(pre);
        let b = seq![Seq::<char>::empty()];
        lemma_chicken_fold_concat(st, a + b, section_lines(secs.last()));
        lemma_chicken_fold_concat(st, a, b);
        assert(a.push(Seq::empty()) =~= a + b);
        assert(b.drop_last() =~= Seq::<Seq<char>>::empty());
        assert(pre.drop_last().push(pre.last()) =~= pre);
        let mid = chicken_fold(st, a);
        assert(pre.last() == pre[pre.len() - 1]);
        assert(pre.last().len() > 0);
        assert(split_ws(Seq::<char>::empty()) =~= Seq::<Seq<char>>::empty());
        assert(chicken_fold(mid, b) == chicken_step(chicken_fold(mid, Seq::empty()), Seq::<char>::empty()));
        assert(chicken_fold(st, a + b) == Ok::<SectionState, ErrorView>((pre, Seq::empty())));
        assert(chicken_lines(secs) == (a + b) + section_lines(secs.last()));
        lemma_chicken_fold_section(pre, Seq::empty(), secs.last());
        assert(Seq::<u64>::empty() + secs.last() =~= secs.last());
    }
}

} // verus!

verus! {

/// A chicken line is the word `chicken`, then nothing or a space and more.
proof fn lemma_chicken_line_head(v: nat)
    ensures
        chicken_line_text(v).len() >= 7,
        chicken_line_text(v).take(7) == chicken_word(),
        chicken_line_text(v).len() == 7 || chicken_line_text(v)[7] == ' ',
    decreases v,
{
    lemma_chicken_word_plain();
    if v > 0 {
        lemma_chicken_line_head((v - 1) as nat);
        let a = chicken_line_text((v - 1) as nat);
        let t = chicken_line_text(v);
        assert(t.take(7) =~= a.take(7));
        if a.len() == 7 {
            assert(t[7] == ' ');
        } else {
            assert(t[7] == a[7]);
        }
    }
}

/// Joined lines start with the first line, then nothing or a line feed.
proof fn lemma_join_lines_head(ls: Seq<Seq<char>>)
    requires
        ls.len() >= 1,
    ensures
        join_lines(ls).take(ls[0].len() as int) == ls[0],
        join_lines(ls).len() >= ls[0].len(),
        ls.len() >= 2 ==> join_lines(ls).len() > ls[0].len() && join_lines(ls)[ls[0].len() as int] == '\n',
    decreases ls.len(),
{
    if ls.len() >= 2 {
        let pre = ls.drop_last();
        lemma_join_lines_head(pre);
        let a = join_lines(pre);
        let t = join_lines(ls);
        assert(pre[0] == ls[0]);
        assert(t.take(ls[0].len() as int) =~= a.take(ls[0].len() as int));
        if pre.len() == 1 {
            assert(a == ls[0]);
            assert(t[ls[0].len() as int] == '\n');
        } else {
            assert(t[ls[0].len() as int] == a[ls[0].len() as int]);
        }
    } else {
        assert(join_lines(ls) == ls[0]);
        assert(ls[0].take(ls[0].len() as int) =~= ls[0]);
    }
}

/// Joined lines end with the last line.
proof fn lemma_join_lines_last(ls: Seq<Seq<char>>)
    requires
        ls.len() >= 1,
        ls.last().len() > 0,
    ensures
        join_lines(ls).len() > 0,
        join_lines(ls).last() == ls.last().last(),
{
}

/// The tokener's finished tokens only grow.
proof fn lemma_ws_scan_keeps_done(st: ScanState, s: Seq<char>)
    ensures
        ws_scan(st, s).0.len() >= st.0.len(),
        ws_scan(st, s).0.take(st.0.len() as int) == st.0,
    decreases s.len(),
{
    if s.len() > 0 {
        lemma_ws_scan_keeps_done(st, s.drop_last());
        let mid = ws_scan(st, s.drop_last());
        assert(mid.0.push(mid.1).take(st.0.len() as int) =~= mid.0.take(st.0.len() as int));
    } else {
        assert(st.0.take(st.0.len() as int) =~= st.0);
    }
}

/// A text that starts with a word followed by whitespace (or nothing) has
/// that word as its first token.
proof fn lemma_first_token(w: Seq<char>, s: Seq<char>)
    requires
        w.len() > 0,
        no_ws(w),
        s.len() >= w.len(),
        s.take(w.len() as int) == w,
        s.len() == w.len() || is_ws(s[w.len() as int]),
    ensures
        split_ws(s).len() > 0,
        split_ws(s)[0] == w,
{
    let st: ScanState = (Seq::empty(), Seq::empty());
    if s.len() == w.len() {
        assert(s == w);
        crate::text::lemma_ws_scan_word(st, w);
        assert(Seq::<char>::empty() + w =~= w);
    } else {
        let head = s.take(w.len() as int + 1);
        let rest = s.skip(w.len() as int + 1);
        assert(s =~= head + rest);
        assert(head =~= w + seq![s[w.len() as int]]);
        lemma_ws_scan_concat(st, head, rest);
        lemma_ws_scan_concat(st, w, seq![s[w.len() as int]]);
        crate::text::lemma_ws_scan_word(st, w);
        assert(Seq::<char>::empty() + w =~= w);
        let mid = ws_scan(st, w);
        assert(seq![s[w.len() as int]].drop_last() =~= Seq::<char>::empty());
        assert(ws_scan(mid, seq![s[w.len() as int]]) == ws_step(ws_scan(mid, Seq::empty()), s[w.len() as int]));
        let after = ws_scan(st, head);
        assert(after.0 == seq![w]);
        lemma_ws_scan_keeps_done(after, rest);
        let fin = ws_scan(after, rest);
        assert(fin.0.take(1)[0] == w);
        assert(fin.0[0] == w);
    }
}

/// Reading a chicken text gives back its sections, when no section is empty.
pub proof fn lemma_chicken_roundtrip(secs: Seq<Seq<u64>>)
    requires
        values_below_max(secs),
        secs.len() >= 1,
        all_sections_nonempty(secs),
    ensures
        parse_spec(join_lines(chicken_lines(secs))) == Ok::<Seq<Seq<u64>>, ErrorView>(secs),
        split_ws(join_lines(chicken_lines(secs))).len() > 0,
        split_ws(join_lines(chicken_lines(secs)))[0] == chicken_word(),
{
    let ls = chicken_lines(secs);
    let text = join_lines(ls);
    lemma_chicken_lines_plain(secs);
    // shape of the line list: first and last lines are chicken lines
    lemma_chicken_lines_shape(secs);
    let v0 = secs[0][0];
    let vl = secs.last().last();
    lemma_chicken_line_plain(vl as nat);
    lemma_join_lines_last(ls);
    assert(trim_end_newlines(text) == text);
    lemma_split_lines_join(ls);
    // first token is `chicken`
    lemma_chicken_line_head(v0 as nat);
    lemma_join_lines_head(ls);
    lemma_chicken_word_plain();
    let l0 = chicken_line_text(v0 as nat);
    assert(text.take(7) =~= l0.take(7)) by {
        assert(text.take(l0.len() as int).take(7) =~= text.take(7));
    }
    assert(text.len() == 7 || is_ws(text[7])) by {
        if text.len() > 7 {
            if l0.len() > 7 {
                assert(text[7] == text.take(l0.len() as int)[7]);
                assert(text[7] == ' ');
            } else {
                assert(ls.len() >= 2);
                assert(text[7] == '\n');
            }
            assert((' ' as u32) == 0x20);
            assert(('\n' as u32) == 0x0A);
        }
    }
    lemma_first_token(chicken_word(), text);
    lemma_chicken_fold_lines(secs);
    assert(secs.drop_last().push(secs.last()) =~= secs);
}

/// The line list of sections without empty ones starts with the chicken
/// line of the first value and ends with that of the last value.
proof fn lemma_chicken_lines_shape(secs: Seq<Seq<u64>>)
    requires
        secs.len() >= 1,
        all_sections_nonempty(secs),
    ensures
        chicken_lines(secs).len() >= 1,
        chicken_lines(secs)[0] == chicken_line_text(secs[0][0] as nat),
        chicken_lines(secs).last() == chicken_line_text(secs.last().last() as nat),
        chicken_lines(secs).last().len() > 0,
    decreases secs.len(),
{
    assert(secs[0].len() > 0);
    assert(secs.last().len() > 0);
    if secs.len() > 1 {
        let pre = secs.drop_last();
        assert(all_sections_nonempty(pre)) by {
            assert forall|i: int| 0 <= i < pre.len() implies #[trigger] pre[i].len() > 0 by {
                assert(pre[i] == secs[i]);
            }
        }
        lemma_chicken_lines_shape(pre);
        assert(pre[0] == secs[0]);
    }
    lemma_chicken_line_plain(secs.last().last() as nat);
}

} // verus!

verus! {

/// Sections that survive a round trip through the given format: every value
/// below `u64::MAX`; for minichicken at least one token; for chicken at least
/// one section and no empty section.
pub open spec fn round_trips(secs: Seq<Seq<u64>>, minichicken: bool) -> bool {
    &&& values_below_max(secs)
    &&& if minichicken {
        secs.len() >= 2 || (secs.len() == 1 && secs[0].len() > 0)
    } else {
        secs.len() >= 1 && all_sections_nonempty(secs)
    }
}

/// Reading the text of sections gives the sections back, and the format is
/// recognised as the one written.
pub proof fn lemma_sections_roundtrip(secs: Seq<Seq<u64>>, minichicken: bool)
    requires
        round_trips(secs, minichicken),
    ensures
        parse_spec(serialize_spec(secs, minichicken)) == Ok::<Seq<Seq<u64>>, ErrorView>(secs),
        is_minichicken_spec(serialize_spec(secs, minichicken)) == minichicken,
{
    if minichicken {
        lemma_mini_roundtrip(secs);
    } else {
        lemma_chicken_roundtrip(secs);
    }
}

} // verus!

verus! {

// ---------------------------------------------------------------------------
// Chicken texts with empty sections
// ---------------------------------------------------------------------------

/// The sections that hold at least one value, in order.
pub open spec fn nonempty_sections(secs: Seq<Seq<u64>>) -> Seq<Seq<u64>>
    decreases secs.len(),
{
    if secs.len() == 0 {
        Seq::empty()
    } else if secs.last().len() > 0 {
        nonempty_sections(secs.drop_last()).push(secs.last())
    } else {
        nonempty_sections(secs.drop_last())
    }
}

/// Some section holds a value.
pub open spec fn has_value(secs: Seq<Seq<u64>>) -> bool {
    exists|i: int| 0 <= i < secs.len() && #[trigger] secs[i].len() > 0
}

/// A line of a chicken text: empty, or a chicken line (it starts with the
/// word `chicken` followed by a space or nothing, ends with `n`, and holds
/// no line feed).
pub open spec fn shaped_line(l: Seq<char>) -> bool {
    l.len() == 0 || (l.len() >= 7 && l.take(7) == chicken_word() && (l.len() == 7 || l[7] == ' ') && l.last() == 'n'
        && no_newline(l))
}

pub open spec fn all_shaped(ls: Seq<Seq<char>>) -> bool {
    forall|j: int| 0 <= j < ls.len() ==> shaped_line(#[trigger] ls[j])
}

pub open spec fn some_nonempty_line(ls: Seq<Seq<char>>) -> bool {
    exists|j: int| 0 <= j < ls.len() && #[trigger] ls[j].len() > 0
}

proof fn lemma_chicken_line_shaped(v: nat)
    ensures
        shaped_line(chicken_line_text(v)),
{
    lemma_chicken_line_head(v);
    lemma_chicken_line_plain(v);
}

/// The lines of sections are shaped; one is nonempty exactly when a section
/// holds a value, which is when some section survives reading.
proof fn lemma_chicken_lines_facts(secs: Seq<Seq<u64>>)
    ensures
        all_shaped(chicken_lines(secs)),
        has_value(secs) <==> some_nonempty_line(chicken_lines(secs)),
        has_value(secs) <==> nonempty_sections(secs).len() > 0,
    decreases secs.len(),
{
    let ls = chicken_lines(secs);
    if secs.len() == 0 {
        assert(!has_value(secs));
        assert(!some_nonempty_line(ls));
    } else {
        let last = secs.last();
        let sl = section_lines(last);
        assert forall|j: int| 0 <= j < sl.len() implies shaped_line(#[trigger] sl[j]) && sl[j].len() > 0 by {
            lemma_chicken_line_shaped(last[j] as nat);
            lemma_chicken_line_head(last[j] as nat);
        }
        let pre = secs.drop_last();
        if secs.len() == 1 {
            assert(ls == sl);
            if last.len() > 0 {
                assert(secs[0].len() > 0);
                assert(ls[0].len() > 0);
            } else {
                assert(!has_value(secs)) by {
                    assert forall|i: int| 0 <= i < secs.len() implies #[trigger] secs[i].len() == 0 by {
                        assert(secs[i] == last);
                    }
                }
            }
        } else {
            lemma_chicken_lines_facts(pre);
            let left = chicken_lines(pre).push(Seq::empty());
            assert(ls == left + sl);
            assert forall|j: int| 0 <= j < ls.len() implies shaped_line(#[trigger] ls[j]) by {
                if j < left.len() {
                    assert(ls[j] == left[j]);
                    if j < chicken_lines(pre).len() {
                        assert(left[j] == chicken_lines(pre)[j]);
                    }
                } else {
                    assert(ls[j] == sl[j - left.len()]);
                }
            }
            if has_value(secs) {
                let i = choose|i: int| 0 <= i < secs.len() && #[trigger] secs[i].len() > 0;
                if i < pre.len() {
                    assert(pre[i] == secs[i]);
                    assert(has_value(pre));
                    let j = choose|j: int| 0 <= j < chicken_lines(pre).len() && #[trigger] chicken_lines(pre)[j].len() > 0;
                    assert(ls[j] == chicken_lines(pre)[j]);
                } else {
                    assert(last.len() > 0);
                    assert(ls[left.len() as int] == sl[0]);
                }
                assert(some_nonempty_line(ls));
            }
            if some_nonempty_line(ls) {
                let j = choose|j: int| 0 <= j < ls.len() && #[trigger] ls[j].len() > 0;
                if j < chicken_lines(pre).len() {
                    assert(ls[j] == chicken_lines(pre)[j]);
                    assert(some_nonempty_line(chicken_lines(pre)));
                    let i = choose|i: int| 0 <= i < pre.len() && #[trigger] pre[i].len() > 0;
                    assert(secs[i] == pre[i]);
                } else if j == chicken_lines(pre).len() {
                    assert(ls[j] == left[j]);
                } else {
                    assert(ls[j] == sl[j - left.len()]);
                    assert(last.len() > 0);
                    assert(secs[secs.len() - 1].len() > 0);
                }
                assert(has_value(secs));
            }
        }
        // The surviving sections: those of the earlier sections, and the last if it holds a value.
        if secs.len() > 1 {
            lemma_chicken_lines_facts(pre);
        } else {
            assert(!has_value(pre));
            assert(nonempty_sections(pre) == Seq::<Seq<u64>>::empty());
        }
        if last.len() > 0 {
            assert(secs[secs.len() - 1].len() > 0);
        } else {
            assert(has_value(secs) <==> has_value(pre)) by {
                if has_value(secs) {
                    let i = choose|i: int| 0 <= i < secs.len() && #[trigger] secs[i].len() > 0;
                    assert(pre[i] == secs[i]);
                }
                if has_value(pre) {
                    let i = choose|i: int| 0 <= i < pre.len() && #[trigger] pre[i].len() > 0;
                    assert(pre[i] == secs[i]);
                }
            }
        }
    }
}

/// Reading the lines of sections, empty ones included, gives the sections
/// that hold values before the last, and the last as the open section.
proof fn lemma_chicken_fold_general(secs: Seq<Seq<u64>>)
    requires
        secs.len() >= 1,
        values_below_max(secs),
    ensures
        chicken_fold(Ok((Seq::empty(), Seq::empty())), chicken_lines(secs))
            == Ok::<SectionState, ErrorView>((nonempty_sections(secs.drop_last()), secs.last())),
    decreases secs.len(),
{
    lemma_values_below_max_prefix(secs);
    if secs.len() == 1 {
        lemma_chicken_fold_section(Seq::empty(), Seq::empty(), secs[0]);
        assert(Seq::<u64>::empty() + secs[0] =~= secs[0]);
        assert(secs.drop_last() =~= Seq::<Seq<u64>>::empty());
    } else {
        let pre = secs.drop_last();
        lemma_chicken_fold_general(pre);
        let st = Ok((Seq::empty(), Seq::empty()));
        let a = chicken_lines(pre);
        let b = seq![Seq::<char>::empty()];
        lemma_chicken_fold_concat(st, a + b, section_lines(secs.last()));
        lemma_chicken_fold_concat(st, a, b);
        assert(a.push(Seq::empty()) =~= a + b);
        assert(b.drop_last() =~= Seq::<Seq<char>>::empty());
        let mid = chicken_fold(st, a);
        assert(split_ws(Seq::<char>::empty()) =~= Seq::<Seq<char>>::empty());
        assert(chicken_fold(mid, b) == chicken_step(chicken_fold(mid, Seq::empty()), Seq::<char>::empty()));
        assert(mid == Ok::<SectionState, ErrorView>((nonempty_sections(pre.drop_last()), pre.last())));
        assert(nonempty_sections(pre) == if pre.last().len() > 0 {
            nonempty_sections(pre.drop_last()).push(pre.last())
        } else {
            nonempty_sections(pre.drop_last())
        });
        if pre.last().len() == 0 {
            assert(pre.last() =~= Seq::<u64>::empty());
        }
        assert(chicken_fold(st, a + b) == Ok::<SectionState, ErrorView>((nonempty_sections(pre), Seq::empty())));
        assert(chicken_lines(secs) == (a + b) + section_lines(secs.last()));
        lemma_chicken_fold_section(nonempty_sections(pre), Seq::empty(), secs.last());
        assert(Seq::<u64>::empty() + secs.last() =~= secs.last());
    }
}

/// Reading the lines of sections gives the sections that hold values.
proof fn lemma_chicken_parse_lines(secs: Seq<Seq<u64>>)
    requires
        values_below_max(secs),
    ensures
        chicken_parse(chicken_lines(secs)) == Ok::<Seq<Seq<u64>>, ErrorView>(nonempty_sections(secs)),
{
    if secs.len() >= 1 {
        lemma_chicken_fold_general(secs);
    }
}

/// A trailing blank line changes nothing that is read.
proof fn lemma_chicken_parse_blank_tail(ls: Seq<Seq<char>>)
    ensures
        chicken_parse(ls.push(Seq::empty())) == chicken_parse(ls),
{
    let st = Ok((Seq::empty(), Seq::empty()));
    assert(ls.push(Seq::empty()).drop_last() =~= ls);
    assert(split_ws(Seq::<char>::empty()) =~= Seq::<Seq<char>>::empty());
    assert(chicken_fold(st, ls.push(Seq::empty())) == chicken_step(chicken_fold(st, ls), Seq::<char>::empty()));
}

/// A trailing whitespace character ends a token and adds none.
proof fn lemma_split_ws_push_ws(s: Seq<char>, c: char)
    requires
        is_ws(c),
    ensures
        split_ws(s.push(c)) == split_ws(s),
{
    assert(s.push(c).drop_last() =~= s);
}

/// Removing trailing line ends keeps the tokens.
proof fn lemma_split_ws_trim(s: Seq<char>)
    ensures
        split_ws(trim_end_newlines(s)) == split_ws(s),
    decreases s.len(),
{
    if s.len() > 0 && (s.last() == '\n' || s.last() == '\r') {
        lemma_split_ws_trim(s.drop_last());
        assert(('\n' as u32) == 0x0A);
        assert(('\r' as u32) == 0x0D);
        lemma_split_ws_push_ws(s.drop_last(), s.last());
        assert(s.drop_last().push(s.last()) =~= s);
    }
}

/// Lines joined with a trailing blank line: the same text and a line feed.
proof fn lemma_join_blank_tail(ls: Seq<Seq<char>>)
    requires
        ls.len() >= 1,
    ensures
        join_lines(ls.push(Seq::empty())) == join_lines(ls).push('\n'),
{
    assert(ls.push(Seq::empty()).drop_last() =~= ls);
    assert(join_lines(ls) + seq!['\n'] + Seq::<char>::empty() =~= join_lines(ls).push('\n'));
}

/// A blank line then more lines, joined: a line feed then those lines.
proof fn lemma_join_blank_head(rest: Seq<Seq<char>>)
    requires
        rest.len() >= 1,
    ensures
        join_lines(seq![Seq::<char>::empty()] + rest) == seq!['\n'] + join_lines(rest),
    decreases rest.len(),
{
    let e = seq![Seq::<char>::empty()];
    let ls = e + rest;
    if rest.len() == 1 {
        assert(ls.drop_last() =~= e);
        assert(join_lines(e) == Seq::<char>::empty());
        assert(join_lines(ls) =~= seq!['\n'] + rest[0]);
    } else {
        lemma_join_blank_head(rest.drop_last());
        assert(ls.drop_last() =~= e + rest.drop_last());
        assert(ls.last() == rest.last());
        assert(join_lines(ls) =~= seq!['\n'] + join_lines(rest));
    }
}

/// Blank lines only, joined, hold no token and trim to nothing.
proof fn lemma_blank_lines(ls: Seq<Seq<char>>)
    requires
        !some_nonempty_line(ls),
    ensures
        split_ws(join_lines(ls)).len() == 0,
        trim_end_newlines(join_lines(ls)).len() == 0,
    decreases ls.len(),
{
    if ls.len() == 0 {
        assert(split_ws(Seq::<char>::empty()) =~= Seq::<Seq<char>>::empty());
    } else if ls.len() == 1 {
        assert(ls[0].len() == 0);
        assert(join_lines(ls) == ls[0]);
        assert(split_ws(Seq::<char>::empty()) =~= Seq::<Seq<char>>::empty());
    } else {
        let pre = ls.drop_last();
        assert(!some_nonempty_line(pre)) by {
            if some_nonempty_line(pre) {
                let j = choose|j: int| 0 <= j < pre.len() && #[trigger] pre[j].len() > 0;
                assert(ls[j] == pre[j]);
            }
        }
        lemma_blank_lines(pre);
        assert(ls.last().len() == 0) by {
            assert(ls[ls.len() - 1].len() == 0);
        }
        assert(ls.last() =~= Seq::<char>::empty());
        assert(pre.push(Seq::empty()) =~= ls);
        lemma_join_blank_tail(pre);
        assert(('\n' as u32) == 0x0A);
        lemma_split_ws_push_ws(join_lines(pre), '\n');
        assert(join_lines(pre).push('\n').drop_last() =~= join_lines(pre));
    }
}

/// Shaped lines with a nonempty one: the first token is `chicken`.
proof fn lemma_shaped_first_token(ls: Seq<Seq<char>>)
    requires
        all_shaped(ls),
        some_nonempty_line(ls),
    ensures
        split_ws(join_lines(ls)).len() > 0,
        split_ws(join_lines(ls))[0] == chicken_word(),
    decreases ls.len(),
{
    lemma_chicken_word_plain();
    let text = join_lines(ls);
    if ls[0].len() > 0 {
        let l0 = ls[0];
        assert(shaped_line(l0));
        lemma_join_lines_head(ls);
        assert(text.take(7) =~= l0.take(7)) by {
            assert(text.take(l0.len() as int).take(7) =~= text.take(7));
        }
        assert(text.len() == 7 || is_ws(text[7])) by {
            if text.len() > 7 {
                if l0.len() > 7 {
                    assert(text[7] == text.take(l0.len() as int)[7]);
                    assert(text[7] == ' ');
                } else {
                    assert(ls.len() >= 2);
                    assert(text[7] == '\n');
                }
                assert((' ' as u32) == 0x20);
                assert(('\n' as u32) == 0x0A);
            }
        }
        lemma_first_token(chicken_word(), text);
    } else {
        let rest = ls.drop_first();
        let j = choose|j: int| 0 <= j < ls.len() && #[trigger] ls[j].len() > 0;
        assert(j > 0);
        assert(rest[j - 1] == ls[j]);
        assert(some_nonempty_line(rest));
        assert(all_shaped(rest)) by {
            assert forall|k: int| 0 <= k < rest.len() implies shaped_line(#[trigger] rest[k]) by {
                assert(rest[k] == ls[k + 1]);
            }
        }
        lemma_shaped_first_token(rest);
        assert(ls =~= seq![Seq::<char>::empty()] + rest) by {
            assert(ls[0] =~= Seq::<char>::empty());
        }
        lemma_join_blank_head(rest);
        let st: ScanState = (Seq::empty(), Seq::empty());
        lemma_ws_scan_concat(st, seq!['\n'], join_lines(rest));
        assert(('\n' as u32) == 0x0A);
        assert(seq!['\n'].drop_last() =~= Seq::<char>::empty());
        assert(ws_scan(st, seq!['\n']) == ws_step(ws_scan(st, Seq::empty()), '\n'));
    }
}

/// Shaped lines with a nonempty one, joined and trimmed, split back into
/// lines that read as the lines themselves.
proof fn lemma_shaped_lines_read(ls: Seq<Seq<char>>)
    requires
        all_shaped(ls),
        some_nonempty_line(ls),
    ensures
        chicken_parse(split_lines(trim_end_newlines(join_lines(ls)))) == chicken_parse(ls),
    decreases ls.len(),
{
    if ls.last().len() > 0 {
        assert(shaped_line(ls[ls.len() - 1]));
        assert forall|i: int| 0 <= i < ls.len() implies no_newline(#[trigger] ls[i]) by {
            assert(shaped_line(ls[i]));
        }
        lemma_join_lines_last(ls);
        assert(trim_end_newlines(join_lines(ls)) == join_lines(ls));
        lemma_split_lines_join(ls);
    } else {
        let pre = ls.drop_last();
        let j = choose|j: int| 0 <= j < ls.len() && #[trigger] ls[j].len() > 0;
        assert(j < ls.len() - 1);
        assert(pre[j] == ls[j]);
        assert(some_nonempty_line(pre));
        assert(all_shaped(pre)) by {
            assert forall|k: int| 0 <= k < pre.len() implies shaped_line(#[trigger] pre[k]) by {
                assert(pre[k] == ls[k]);
            }
        }
        lemma_shaped_lines_read(pre);
        assert(ls.last() =~= Seq::<char>::empty());
        assert(pre.push(Seq::empty()) =~= ls);
        lemma_join_blank_tail(pre);
        lemma_chicken_parse_blank_tail(pre);
        assert(join_lines(pre).push('\n').drop_last() =~= join_lines(pre));
    }
}

/// Reading a chicken text, whatever its sections: the sections that hold
/// values, or no input at all when none does; and the text is never taken
/// for minichicken.
pub proof fn lemma_chicken_read(secs: Seq<Seq<u64>>)
    requires
        values_below_max(secs),
    ensures
        parse_spec(serialize_spec(secs, false)) == (if nonempty_sections(secs).len() == 0 {
            Err::<Seq<Seq<u64>>, ErrorView>(ErrorView::EmptyInput)
        } else {
            Ok::<Seq<Seq<u64>>, ErrorView>(nonempty_sections(secs))
        }),
        !is_minichicken_spec(serialize_spec(secs, false)),
{
    let ls = chicken_lines(secs);
    let text = join_lines(ls);
    lemma_chicken_lines_facts(secs);
    lemma_split_ws_trim(text);
    if has_value(secs) {
        lemma_shaped_first_token(ls);
        lemma_shaped_lines_read(ls);
        lemma_chicken_parse_lines(secs);
    } else {
        lemma_blank_lines(ls);
    }
}

/// When the first section holds a value, it is the first section read.
pub proof fn lemma_nonempty_sections_first(secs: Seq<Seq<u64>>)
    requires
        secs.len() >= 1,
        secs[0].len() > 0,
    ensures
        nonempty_sections(secs).len() > 0,
        nonempty_sections(secs)[0] == secs[0],
    decreases secs.len(),
{
    if secs.len() > 1 {
        let pre = secs.drop_last();
        assert(pre[0] == secs[0]);
        lemma_nonempty_sections_first(pre);
        let f = nonempty_sections(pre);
        assert(nonempty_sections(secs) == if secs.last().len() > 0 { f.push(secs.last()) } else { f });
        assert(f.push(secs.last())[0] == f[0]);
    } else {
        assert(secs.drop_last() =~= Seq::<Seq<u64>>::empty());
        assert(secs.last() == secs[0]);
        assert(nonempty_sections(Seq::<Seq<u64>>::empty()) == Seq::<Seq<u64>>::empty());
        assert(nonempty_sections(secs.drop_last()) == Seq::<Seq<u64>>::empty());
        assert(nonempty_sections(secs) == nonempty_sections(secs.drop_last()).push(secs.last()));
    }
}


/// Reading keeps every section when none is empty, and loses at least one
/// otherwise.
pub proof fn lemma_nonempty_sections_count(secs: Seq<Seq<u64>>)
    ensures
        nonempty_sections(secs).len() <= secs.len(),
        all_sections_nonempty(secs) ==> nonempty_sections(secs) == secs,
        !all_sections_nonempty(secs) ==> nonempty_sections(secs).len() < secs.len(),
    decreases secs.len(),
{
    if secs.len() > 0 {
        let pre = secs.drop_last();
        lemma_nonempty_sections_count(pre);
        if all_sections_nonempty(secs) {
            assert(all_sections_nonempty(pre)) by {
                assert forall|i: int| 0 <= i < pre.len() implies #[trigger] pre[i].len() > 0 by {
                    assert(pre[i] == secs[i]);
                }
            }
            assert(secs[secs.len() - 1].len() > 0);
            assert(pre.push(secs.last()) =~= secs);
        } else if secs.last().len() > 0 {
            assert(!all_sections_nonempty(pre)) by {
                let i = choose|i: int| 0 <= i < secs.len() && !(#[trigger] secs[i].len() > 0);
                assert(i != secs.len() - 1);
                assert(pre[i] == secs[i]);
            }
        }
    } else {
        assert(nonempty_sections(secs) =~= secs);
    }
}

} // verus!
