//! Text scanning: characters of a string, whitespace tokens, lines,
//! trailing line ends, and decimal numerals.
use vstd::prelude::*;

verus! {

broadcast use vstd::string::group_string_axioms;

/// The characters of a string.
pub fn str_chars(s: &str) -> (res: Vec<char>)
    ensures
        res@ == s@,
{
    let mut res: Vec<char> = Vec::new();
    for c in it: s.chars()
        invariant
            res@ == it.seq().take(it.index() as int),
    {
        res.push(c);
    }
    res
}

/// Views of a vector of character vectors.
pub open spec fn char_rows(v: Seq<Vec<char>>) -> Seq<Seq<char>> {
    v.map_values(|x: Vec<char>| x@)
}

// ---------------------------------------------------------------------------
// Whitespace and tokens
// ---------------------------------------------------------------------------

/// Unicode `White_Space`, the set that `char::is_whitespace` accepts.
pub open spec fn is_ws(c: char) -> bool {
    let u = c as u32;
    (0x09 <= u <= 0x0D) || u == 0x20 || u == 0x85 || u == 0xA0 || u == 0x1680
        || (0x2000 <= u <= 0x200A) || u == 0x2028 || u == 0x2029 || u == 0x202F
        || u == 0x205F || u == 0x3000
}

pub fn is_whitespace(c: char) -> (res: bool)
    ensures
        res == is_ws(c),
{
    let u = c as u32;
    (0x09 <= u && u <= 0x0D) || u == 0x20 || u == 0x85 || u == 0xA0 || u == 0x1680
        || (0x2000 <= u && u <= 0x200A) || u == 0x2028 || u == 0x2029 || u == 0x202F
        || u == 0x205F || u == 0x3000
}

/// State of a left-to-right tokenizer: finished tokens and the token being read.
pub type ScanState = (Seq<Seq<char>>, Seq<char>);

pub open spec fn ws_step(st: ScanState, c: char) -> ScanState {
    if is_ws(c) {
        if st.1.len() > 0 {
            (st.0.push(st.1), Seq::empty())
        } else {
            st
        }
    } else {
        (st.0, st.1.push(c))
    }
}

pub open spec fn ws_scan(st: ScanState, s: Seq<char>) -> ScanState
    decreases s.len(),
{
    if s.len() == 0 {
        st
    } else {
        ws_step(ws_scan(st, s.drop_last()), s.last())
    }
}

/// Close the token being read, if any.
pub open spec fn flush(st: ScanState) -> Seq<Seq<char>> {
    if st.1.len() > 0 {
        st.0.push(st.1)
    } else {
        st.0
    }
}

/// The maximal runs of non-whitespace characters, in order (`str::split_whitespace`).
pub open spec fn split_ws(s: Seq<char>) -> Seq<Seq<char>> {
    flush(ws_scan((Seq::empty(), Seq::empty()), s))
}

/// Split a character sequence into whitespace-separated tokens.
pub fn split_whitespace(s: &Vec<char>) -> (res: Vec<Vec<char>>)
    ensures
        char_rows(res@) == split_ws(s@),
{
    let mut done: Vec<Vec<char>> = Vec::new();
    let mut cur: Vec<char> = Vec::new();
    let mut i: usize = 0;
    while i < s.len()
        invariant
            i <= s.len(),
            (char_rows(done@), cur@) == ws_scan((Seq::empty(), Seq::empty()), s@.take(i as int)),
        decreases s.len() - i,
    {
        let c = s[i];
        assert(s@.take(i + 1).drop_last() == s@.take(i as int));
        if is_whitespace(c) {
            if cur.len() > 0 {
                let word = cur;
                cur = Vec::new();
                let ghost before = done@;
                done.push(word);
                assert(char_rows(done@) =~= char_rows(before).push(word@));
            }
        } else {
            cur.push(c);
        }
        i += 1;
    }
    assert(s@.take(s.len() as int) == s@);
    if cur.len() > 0 {
        let ghost before = done@;
        done.push(cur);
        assert(char_rows(done@) =~= char_rows(before).push(cur@));
    }
    done
}

} // verus!

verus! {

// ---------------------------------------------------------------------------
// Lines
// ---------------------------------------------------------------------------

pub open spec fn line_step(st: ScanState, c: char) -> ScanState {
    if c == '\n' {
        (st.0.push(st.1), Seq::empty())
    } else {
        (st.0, st.1.push(c))
    }
}

pub open spec fn line_scan(st: ScanState, s: Seq<char>) -> ScanState
    decreases s.len(),
{
    if s.len() == 0 {
        st
    } else {
        line_step(line_scan(st, s.drop_last()), s.last())
    }
}

/// The pieces between line feeds; a final line feed ends the last line
/// rather than starting an empty one. (A carriage return before a line
/// feed stays in its line; it is whitespace, so tokens do not see it.)
pub open spec fn split_lines(s: Seq<char>) -> Seq<Seq<char>> {
    flush(line_scan((Seq::empty(), Seq::empty()), s))
}

/// Split a character sequence into lines at line feeds.
pub fn lines_of(s: &Vec<char>) -> (res: Vec<Vec<char>>)
    ensures
        char_rows(res@) == split_lines(s@),
{
    let mut done: Vec<Vec<char>> = Vec::new();
    let mut cur: Vec<char> = Vec::new();
    let mut i: usize = 0;
    while i < s.len()
        invariant
            i <= s.len(),
            (char_rows(done@), cur@) == line_scan((Seq::empty(), Seq::empty()), s@.take(i as int)),
        decreases s.len() - i,
    {
        let c = s[i];
        assert(s@.take(i + 1).drop_last() == s@.take(i as int));
        if c == '\n' {
            let line = cur;
            cur = Vec::new();
            let ghost before = done@;
            done.push(line);
            assert(char_rows(done@) =~= char_rows(before).push(line@));
        } else {
            cur.push(c);
        }
        i += 1;
    }
    assert(s@.take(s.len() as int) == s@);
    if cur.len() > 0 {
        let ghost before = done@;
        done.push(cur);
        assert(char_rows(done@) =~= char_rows(before).push(cur@));
    }
    done
}

/// `s` with every trailing line feed and carriage return removed.
pub open spec fn trim_end_newlines(s: Seq<char>) -> Seq<char>
    decreases s.len(),
{
    if s.len() > 0 && (s.last() == '\n' || s.last() == '\r') {
        trim_end_newlines(s.drop_last())
    } else {
        s
    }
}

/// Remove trailing line feeds and carriage returns in place.
pub fn trim_end_newlines_in_place(s: &mut Vec<char>)
    ensures
        final(s)@ == trim_end_newlines(old(s)@),
{
    while s.len() > 0 && (s[s.len() - 1] == '\n' || s[s.len() - 1] == '\r')
        invariant
            trim_end_newlines(s@) == trim_end_newlines(old(s)@),
        decreases s.len(),
    {
        let ghost before = s@;
        s.pop();
        assert(s@ == before.drop_last());
    }
}

// ---------------------------------------------------------------------------
// Decimal numerals
// ---------------------------------------------------------------------------

pub open spec fn digit_char(d: nat) -> char {
    (48 + d) as char
}

pub open spec fn is_digit(c: char) -> bool {
    '0' <= c && c <= '9'
}

/// The decimal numeral of `n`, most significant digit first, without sign
/// or leading zeros (what `u64::to_string` produces).
pub open spec fn dec(n: nat) -> Seq<char>
    decreases n,
{
    if n < 10 {
        seq![digit_char(n)]
    } else {
        dec(n / 10).push(digit_char(n % 10))
    }
}

/// Value of a string of decimal digits.
pub open spec fn digits_value(s: Seq<char>) -> nat
    decreases s.len(),
{
    if s.len() == 0 {
        0
    } else {
        digits_value(s.drop_last()) * 10 + ((s.last() as nat) - 48) as nat
    }
}

pub open spec fn all_digits(s: Seq<char>) -> bool {
    forall|i: int| 0 <= i < s.len() ==> #[trigger] is_digit(s[i])
}

/// The digits of a token after an optional leading `+`.
pub open spec fn unsigned_digits(tok: Seq<char>) -> Seq<char> {
    if tok.len() > 0 && tok[0] == '+' {
        tok.drop_first()
    } else {
        tok
    }
}

/// What `str::parse::<u64>` accepts: an optional `+`, then one or more ASCII
/// digits whose value fits in 64 bits.
pub open spec fn parse_u64_spec(tok: Seq<char>) -> Option<u64> {
    let ds = unsigned_digits(tok);
    if ds.len() > 0 && all_digits(ds) && digits_value(ds) <= u64::MAX {
        Some(digits_value(ds) as u64)
    } else {
        None
    }
}

proof fn lemma_digits_value_grows(s: Seq<char>, k: int)
    requires
        0 <= k <= s.len(),
        all_digits(s),
    ensures
        digits_value(s.take(k)) <= digits_value(s),
    decreases s.len() - k,
{
    if k < s.len() {
        lemma_digits_value_grows(s, k + 1);
        assert(s.take(k + 1).drop_last() == s.take(k));
        assert(is_digit(s[k]));
    } else {
        assert(s.take(k) == s);
    }
}

/// Parse a decimal token as `str::parse::<u64>` does.
pub fn parse_u64(tok: &Vec<char>) -> (res: Option<u64>)
    ensures
        res == parse_u64_spec(tok@),
{
    let len = tok.len();
    let start: usize = if len > 0 && tok[0] == '+' { 1 } else { 0 };
    let ghost ds = unsigned_digits(tok@);
    assert(ds == tok@.subrange(start as int, len as int));
    if start == len {
        return None;
    }
    let mut value: u64 = 0;
    let mut i: usize = start;
    while i < len
        invariant
            start <= i <= len,
            len == tok.len(),
            ds == tok@.subrange(start as int, len as int),
            ds == unsigned_digits(tok@),
            all_digits(ds.take(i - start)),
            value == digits_value(ds.take(i - start)),
        decreases len - i,
    {
        let c = tok[i];
        assert(ds[i - start] == c);
        if !('0' <= c && c <= '9') {
            assert(!is_digit(ds[i - start]));
            assert(!all_digits(ds));
            return None;
        }
        let d = (c as u32 - 48) as u64;
        assert(d == (c as nat) - 48);
        assert(ds.take(i + 1 - start).drop_last() == ds.take(i - start));
        assert(ds.take(i + 1 - start).last() == c);
        assert(all_digits(ds.take(i + 1 - start)));
        match value.checked_mul(10) {
            None => {
                proof {
                    if all_digits(ds) {
                        lemma_digits_value_grows(ds, i + 1 - start);
                        assert(value * 10 > u64::MAX);
                        assert(digits_value(ds.take(i + 1 - start)) == value * 10 + d);
                    }
                }
                return None;
            },
            Some(v10) => {
                match v10.checked_add(d) {
                    None => {
                        proof {
                            if all_digits(ds) {
                                lemma_digits_value_grows(ds, i + 1 - start);
                                assert(digits_value(ds.take(i + 1 - start)) == v10 + d);
                            }
                        }
                        return None;
                    },
                    Some(v) => {
                        value = v;
                    },
                }
            },
        }
        i += 1;
    }
    assert(ds.take(len - start) == ds);
    Some(value)
}

} // verus!

verus! {

/// The one-character string of a decimal digit.
fn digit_str(d: u64) -> (s: &'static str)
    requires
        d < 10,
    ensures
        s@ == seq![digit_char(d as nat)],
{
    proof {
        reveal_strlit("0");
        reveal_strlit("1");
        reveal_strlit("2");
        reveal_strlit("3");
        reveal_strlit("4");
        reveal_strlit("5");
        reveal_strlit("6");
        reveal_strlit("7");
        reveal_strlit("8");
        reveal_strlit("9");
    }
    if d == 0 {
        "0"
    } else if d == 1 {
        "1"
    } else if d == 2 {
        "2"
    } else if d == 3 {
        "3"
    } else if d == 4 {
        "4"
    } else if d == 5 {
        "5"
    } else if d == 6 {
        "6"
    } else if d == 7 {
        "7"
    } else if d == 8 {
        "8"
    } else {
        "9"
    }
}

/// Append the decimal numeral of `n` (as `u64::to_string` writes it).
pub fn push_decimal(out: &mut String, n: u64)
    ensures
        final(out)@ == old(out)@ + dec(n as nat),
    decreases n,
{
    if n >= 10 {
        push_decimal(out, n / 10);
    }
    out.append(digit_str(n % 10));
    assert(dec(n as nat) =~= if n < 10 { seq![digit_char(n as nat)] } else { dec((n / 10) as nat).push(digit_char((n % 10) as nat)) });
}

} // verus!

verus! {

/// Scanning a concatenation scans the second part from where the first ended.
pub proof fn lemma_ws_scan_concat(st: ScanState, a: Seq<char>, b: Seq<char>)
    ensures
        ws_scan(st, a + b) == ws_scan(ws_scan(st, a), b),
    decreases b.len(),
{
    if b.len() == 0 {
        assert(a + b =~= a);
    } else {
        lemma_ws_scan_concat(st, a, b.drop_last());
        assert((a + b).drop_last() =~= a + b.drop_last());
        assert((a + b).last() == b.last());
    }
}

pub proof fn lemma_line_scan_concat(st: ScanState, a: Seq<char>, b: Seq<char>)
    ensures
        line_scan(st, a + b) == line_scan(line_scan(st, a), b),
    decreases b.len(),
{
    if b.len() == 0 {
        assert(a + b =~= a);
    } else {
        lemma_line_scan_concat(st, a, b.drop_last());
        assert((a + b).drop_last() =~= a + b.drop_last());
        assert((a + b).last() == b.last());
    }
}

pub open spec fn no_ws(w: Seq<char>) -> bool {
    forall|i: int| 0 <= i < w.len() ==> !is_ws(#[trigger] w[i])
}

pub open spec fn no_newline(w: Seq<char>) -> bool {
    forall|i: int| 0 <= i < w.len() ==> #[trigger] w[i] != '\n'
}

/// A run without whitespace extends the token being read.
pub proof fn lemma_ws_scan_word(st: ScanState, w: Seq<char>)
    requires
        no_ws(w),
    ensures
        ws_scan(st, w) == (st.0, st.1 + w),
    decreases w.len(),
{
    if w.len() == 0 {
        assert(st.1 + w =~= st.1);
    } else {
        lemma_ws_scan_word(st, w.drop_last());
        assert(st.1 + w =~= (st.1 + w.drop_last()).push(w.last()));
    }
}

/// A piece without line feeds extends the line being read.
pub proof fn lemma_line_scan_piece(st: ScanState, w: Seq<char>)
    requires
        no_newline(w),
    ensures
        line_scan(st, w) == (st.0, st.1 + w),
    decreases w.len(),
{
    if w.len() == 0 {
        assert(st.1 + w =~= st.1);
    } else {
        lemma_line_scan_piece(st, w.drop_last());
        assert(st.1 + w =~= (st.1 + w.drop_last()).push(w.last()));
    }
}

/// A word followed by a space is a finished token.
pub proof fn lemma_ws_scan_word_space(d: Seq<Seq<char>>, w: Seq<char>)
    requires
        no_ws(w),
        w.len() > 0,
    ensures
        ws_scan((d, Seq::empty()), w + seq![' ']) == (d.push(w), Seq::<char>::empty()),
{
    lemma_ws_scan_concat((d, Seq::empty()), w, seq![' ']);
    lemma_ws_scan_word((d, Seq::empty()), w);
    assert(Seq::<char>::empty() + w =~= w);
    assert(seq![' '].drop_last() =~= Seq::<char>::empty());
    assert((' ' as u32) == 0x20);
    assert(is_ws(' '));
    let st1 = (d, w);
    assert(ws_scan(st1, seq![' ']) == ws_step(ws_scan(st1, Seq::empty()), ' '));
}

/// Decimal numerals are nonempty strings of digits that parse back to their value.
pub proof fn lemma_dec(n: nat)
    ensures
        dec(n).len() > 0,
        all_digits(dec(n)),
        digits_value(dec(n)) == n,
        n > 0 ==> dec(n) != seq!['0'],
        dec(n)[0] != '+',
    decreases n,
{
    if n < 10 {
        assert(dec(n) == seq![digit_char(n)]);
        assert(seq![digit_char(n)].drop_last() =~= Seq::<char>::empty());
        assert(digit_char(n) as nat == 48 + n);
        assert(digits_value(Seq::<char>::empty()) == 0);
    } else {
        lemma_dec(n / 10);
        let d = dec(n / 10);
        assert(dec(n).drop_last() =~= d);
        assert(digit_char(n % 10) as nat == 48 + n % 10);
        assert(dec(n)[0] == d[0]);
        vstd::arithmetic::div_mod::lemma_fundamental_div_mod(n as int, 10);
        assert(digits_value(dec(n)) == (n / 10) * 10 + n % 10);
    }
}

pub proof fn lemma_parse_dec(n: u64)
    ensures
        parse_u64_spec(dec(n as nat)) == Some(n),
{
    lemma_dec(n as nat);
}

/// Digits are neither whitespace nor line ends.
pub proof fn lemma_digits_plain(s: Seq<char>)
    requires
        all_digits(s),
    ensures
        no_ws(s),
        no_newline(s),
        forall|i: int| 0 <= i < s.len() ==> #[trigger] s[i] != '\r',
{
    assert forall|i: int| 0 <= i < s.len() implies !is_ws(#[trigger] s[i]) by {
        assert(is_digit(s[i]));
    }
    assert forall|i: int| 0 <= i < s.len() implies #[trigger] s[i] != '\n' by {
        assert(is_digit(s[i]));
    }
    assert forall|i: int| 0 <= i < s.len() implies #[trigger] s[i] != '\r' by {
        assert(is_digit(s[i]));
    }
}

} // verus!

verus! {

// ---------------------------------------------------------------------------
// Trimming
// ---------------------------------------------------------------------------

/// The text without its leading whitespace.
pub open spec fn trim_start_spec(s: Seq<char>) -> Seq<char>
    decreases s.len(),
{
    if s.len() > 0 && is_ws(s[0]) {
        trim_start_spec(s.drop_first())
    } else {
        s
    }
}

/// The text without its trailing whitespace.
pub open spec fn trim_end_spec(s: Seq<char>) -> Seq<char>
    decreases s.len(),
{
    if s.len() > 0 && is_ws(s.last()) {
        trim_end_spec(s.drop_last())
    } else {
        s
    }
}

/// The text without leading and trailing whitespace (what `str::trim` gives).
pub open spec fn trim_spec(s: Seq<char>) -> Seq<char> {
    trim_end_spec(trim_start_spec(s))
}

/// Remove leading and trailing whitespace, as `str::trim` does.
pub fn trim_chars(s: &Vec<char>) -> (t: Vec<char>)
    ensures
        t@ == trim_spec(s@),
{
    let len = s.len();
    let mut lo: usize = 0;
    assert(s@.subrange(0, len as int) =~= s@);
    while lo < len && is_whitespace(s[lo])
        invariant
            lo <= len,
            len == s.len(),
            trim_start_spec(s@) == trim_start_spec(s@.subrange(lo as int, len as int)),
        decreases len - lo,
    {
        assert(s@.subrange(lo as int, len as int).drop_first() =~= s@.subrange(lo + 1, len as int));
        lo += 1;
    }
    let ghost rest = s@.subrange(lo as int, len as int);
    assert(trim_start_spec(rest) == rest);
    let mut hi: usize = len;
    while hi > lo && is_whitespace(s[hi - 1])
        invariant
            lo <= hi <= len,
            len == s.len(),
            rest == s@.subrange(lo as int, len as int),
            trim_end_spec(rest) == trim_end_spec(s@.subrange(lo as int, hi as int)),
        decreases hi - lo,
    {
        assert(s@.subrange(lo as int, hi as int).drop_last() =~= s@.subrange(lo as int, hi - 1));
        hi -= 1;
    }
    let mut t: Vec<char> = Vec::new();
    let mut i: usize = lo;
    while i < hi
        invariant
            lo <= i <= hi,
            hi <= s.len(),
            t@ == s@.subrange(lo as int, i as int),
        decreases hi - i,
    {
        t.push(s[i]);
        assert(t@ =~= s@.subrange(lo as int, i + 1));
        i += 1;
    }
    t
}

} // verus!
