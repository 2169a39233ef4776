//! Character and string utilities shared by the parsers and renderers:
//! whitespace classification, tokenization, trimming, substring splitting,
//! and decimal integer parsing and rendering.

use vstd::prelude::*;

verus! {

/// True exactly for the characters with the Unicode `White_Space` property,
/// the set on which request lines are tokenized.
pub open spec fn spec_is_space(c: char) -> bool {
    c == ' ' || c == '\t' || c == '\n' || c == '\r' || c == '\u{0b}' || c == '\u{0c}'
        || c == '\u{85}' || c == '\u{a0}' || c == '\u{1680}'
        || ('\u{2000}' <= c && c <= '\u{200a}')
        || c == '\u{2028}' || c == '\u{2029}' || c == '\u{202f}' || c == '\u{205f}'
        || c == '\u{3000}'
}

/// Whitespace test used by the tokenizer.
#[verifier::when_used_as_spec(spec_is_space)]
pub fn is_space_char(c: char) -> (r: bool)
    ensures
        r == spec_is_space(c),
{
    c == ' ' || c == '\t' || c == '\n' || c == '\r' || c == '\u{0b}' || c == '\u{0c}'
        || c == '\u{85}' || c == '\u{a0}' || c == '\u{1680}'
        || ('\u{2000}' <= c && c <= '\u{200a}')
        || c == '\u{2028}' || c == '\u{2029}' || c == '\u{202f}' || c == '\u{205f}'
        || c == '\u{3000}'
}

/// The maximal runs of non-whitespace characters of `s`, in order.
pub open spec fn spec_tokenize(s: Seq<char>) -> Seq<Seq<char>>
    decreases s.len(),
{
    if s.len() == 0 {
        Seq::empty()
    } else {
        let rest = spec_tokenize(s.drop_first());
        if spec_is_space(s[0]) {
            rest
        } else if s.len() == 1 || spec_is_space(s[1]) {
            seq![seq![s[0]]] + rest
        } else {
            seq![seq![s[0]] + rest[0]] + rest.drop_first()
        }
    }
}

/// `s` with leading whitespace removed.
pub open spec fn spec_trim_start(s: Seq<char>) -> Seq<char>
    decreases s.len(),
{
    if s.len() > 0 && spec_is_space(s[0]) {
        spec_trim_start(s.drop_first())
    } else {
        s
    }
}

/// `s` with trailing whitespace removed.
pub open spec fn spec_trim_end(s: Seq<char>) -> Seq<char>
    decreases s.len(),
{
    if s.len() > 0 && spec_is_space(s.last()) {
        spec_trim_end(s.drop_last())
    } else {
        s
    }
}

/// `s` with leading and trailing whitespace removed.
pub open spec fn spec_trim(s: Seq<char>) -> Seq<char> {
    spec_trim_end(spec_trim_start(s))
}

/// The parts of `s` between the leftmost non-overlapping occurrences of the
/// two-character separator `c0 c1`; a string with no separator is one part.
pub open spec fn spec_split_pair(s: Seq<char>, c0: char, c1: char) -> Seq<Seq<char>>
    decreases s.len(),
{
    if s.len() < 2 {
        seq![s]
    } else if s[0] == c0 && s[1] == c1 {
        seq![Seq::<char>::empty()] + spec_split_pair(s.skip(2), c0, c1)
    } else {
        let rest = spec_split_pair(s.drop_first(), c0, c1);
        seq![seq![s[0]] + rest[0]] + rest.drop_first()
    }
}

/// The tokens joined with a single space between neighbours.
pub open spec fn spec_join_spaces(ts: Seq<Seq<char>>) -> Seq<char>
    decreases ts.len(),
{
    if ts.len() == 0 {
        Seq::empty()
    } else if ts.len() == 1 {
        ts[0]
    } else {
        ts[0] + seq![' '] + spec_join_spaces(ts.drop_first())
    }
}

/// The index of the first occurrence of `c` in `s`, if any.
pub open spec fn spec_find_char(s: Seq<char>, c: char) -> Option<int>
    decreases s.len(),
{
    if s.len() == 0 {
        None
    } else if s[0] == c {
        Some(0)
    } else {
        match spec_find_char(s.drop_first(), c) {
            Some(i) => Some(i + 1),
            None => None,
        }
    }
}

pub open spec fn spec_is_digit(c: char) -> bool {
    '0' <= c && c <= '9'
}

pub open spec fn spec_digit_val(c: char) -> int {
    c as int - '0' as int
}

pub open spec fn spec_all_digits(s: Seq<char>) -> bool {
    forall|i: int| 0 <= i < s.len() ==> spec_is_digit(s[i])
}

/// The value of a string of decimal digits.
pub open spec fn spec_digits_val(s: Seq<char>) -> int
    decreases s.len(),
{
    if s.len() == 0 {
        0
    } else {
        spec_digits_val(s.drop_last()) * 10 + spec_digit_val(s.last())
    }
}

/// The digit body of a signed decimal string: everything after an optional
/// leading `+` or `-`.
pub open spec fn spec_int_body(s: Seq<char>) -> Seq<char> {
    if s.len() > 0 && (s[0] == '-' || s[0] == '+') {
        s.drop_first()
    } else {
        s
    }
}

/// Whether `s` is a well-formed signed decimal string: an optional sign
/// followed by at least one digit, and nothing else.
pub open spec fn spec_is_int_str(s: Seq<char>) -> bool {
    let body = spec_int_body(s);
    body.len() > 0 && spec_all_digits(body)
}

/// The value of a well-formed signed decimal string.
pub open spec fn spec_int_val(s: Seq<char>) -> int {
    if s.len() > 0 && s[0] == '-' {
        -spec_digits_val(spec_int_body(s))
    } else {
        spec_digits_val(spec_int_body(s))
    }
}

/// Whether `s` is a signed decimal string whose value fits in an `i32`,
/// exactly the strings accepted by the expression parser as numbers.
pub open spec fn spec_is_i32_str(s: Seq<char>) -> bool {
    spec_is_int_str(s) && -0x8000_0000 <= spec_int_val(s) <= 0x7fff_ffff
}

pub open spec fn spec_digit_char(d: int) -> char {
    if d == 0 { '0' }
    else if d == 1 { '1' }
    else if d == 2 { '2' }
    else if d == 3 { '3' }
    else if d == 4 { '4' }
    else if d == 5 { '5' }
    else if d == 6 { '6' }
    else if d == 7 { '7' }
    else if d == 8 { '8' }
    else { '9' }
}

/// The canonical decimal rendering of a non-negative integer.
pub open spec fn spec_dec_nat(n: nat) -> Seq<char>
    decreases n,
{
    if n < 10 {
        seq![spec_digit_char(n as int)]
    } else {
        spec_dec_nat(n / 10) + seq![spec_digit_char((n % 10) as int)]
    }
}

/// The canonical decimal rendering of an integer, with a leading `-` when
/// negative.
pub open spec fn spec_dec_int(v: int) -> Seq<char> {
    if v < 0 {
        seq!['-'] + spec_dec_nat((-v) as nat)
    } else {
        spec_dec_nat(v as nat)
    }
}

/// Tokenization ignores a leading whitespace character.
pub proof fn lemma_tokenize_space(s: Seq<char>)
    requires
        s.len() > 0,
        spec_is_space(s[0]),
    ensures
        spec_tokenize(s) == spec_tokenize(s.drop_first()),
{
}

/// When `s` starts with a token of length `j` (non-space characters up to the
/// first space or the end), tokenization yields that token followed by the
/// tokens of the rest.
pub proof fn lemma_tokenize_step(s: Seq<char>, j: int)
    requires
        0 < j <= s.len(),
        forall|k: int| 0 <= k < j ==> !spec_is_space(s[k]),
        j == s.len() || spec_is_space(s[j]),
    ensures
        spec_tokenize(s) == seq![s.take(j)] + spec_tokenize(s.skip(j)),
    decreases j,
{
    if j == 1 {
        assert(s.take(1) =~= seq![s[0]]);
        assert(s.skip(1) =~= s.drop_first());
        if s.len() == 1 {
            assert(spec_tokenize(s) =~= seq![s.take(1)] + spec_tokenize(s.skip(1)));
        } else {
            assert(spec_is_space(s[1]));
            assert(spec_tokenize(s) =~= seq![s.take(1)] + spec_tokenize(s.skip(1)));
        }
    } else {
        let sd = s.drop_first();
        assert(forall|k: int| 0 <= k < j - 1 ==> !spec_is_space(sd[k]));
        assert(j - 1 == sd.len() || spec_is_space(sd[j - 1]));
        lemma_tokenize_step(sd, j - 1);
        let rest = spec_tokenize(sd);
        assert(rest == seq![sd.take(j - 1)] + spec_tokenize(sd.skip(j - 1)));
        assert(rest[0] == sd.take(j - 1));
        assert(rest.drop_first() =~= spec_tokenize(sd.skip(j - 1)));
        assert(seq![s[0]] + sd.take(j - 1) =~= s.take(j));
        assert(sd.skip(j - 1) =~= s.skip(j));
        assert(!spec_is_space(s[1]));
        assert(spec_tokenize(s) == seq![seq![s[0]] + rest[0]] + rest.drop_first());
        assert(spec_tokenize(s) =~= seq![s.take(j)] + spec_tokenize(s.skip(j)));
    }
}

/// A string with no occurrence of the separator splits into one part.
pub proof fn lemma_split_none(s: Seq<char>, c0: char, c1: char)
    requires
        forall|j: int| 0 <= j && j + 1 < s.len() ==> !(#[trigger] s[j] == c0 && s[j + 1] == c1),
    ensures
        spec_split_pair(s, c0, c1) == seq![s],
    decreases s.len(),
{
    if s.len() < 2 {
    } else {
        let sd = s.drop_first();
        lemma_split_none(sd, c0, c1);
        let rest = spec_split_pair(sd, c0, c1);
        assert(rest == seq![sd]);
        assert(seq![s[0]] + sd =~= s);
        assert(rest.drop_first() =~= Seq::<Seq<char>>::empty());
        assert(spec_split_pair(s, c0, c1) =~= seq![s]);
    }
}

/// When the leftmost occurrence of the separator is at `i`, the split is the
/// prefix before it followed by the split of what comes after it.
pub proof fn lemma_split_some(s: Seq<char>, c0: char, c1: char, i: int)
    requires
        0 <= i,
        i + 1 < s.len(),
        s[i] == c0 && s[i + 1] == c1,
        forall|j: int| 0 <= j < i ==> !(#[trigger] s[j] == c0 && s[j + 1] == c1),
    ensures
        spec_split_pair(s, c0, c1) == seq![s.take(i)] + spec_split_pair(s.skip(i + 2), c0, c1),
    decreases i,
{
    if i == 0 {
        assert(s.take(0) =~= Seq::<char>::empty());
        assert(spec_split_pair(s, c0, c1) =~= seq![s.take(0)] + spec_split_pair(
            s.skip(2),
            c0,
            c1,
        ));
    } else {
        let sd = s.drop_first();
        assert(forall|j: int| 0 <= j < i - 1 ==> !(#[trigger] sd[j] == c0 && sd[j + 1] == c1));
        lemma_split_some(sd, c0, c1, i - 1);
        let rest = spec_split_pair(sd, c0, c1);
        assert(rest == seq![sd.take(i - 1)] + spec_split_pair(sd.skip(i + 1), c0, c1));
        assert(rest[0] == sd.take(i - 1));
        assert(rest.drop_first() =~= spec_split_pair(sd.skip(i + 1), c0, c1));
        assert(seq![s[0]] + sd.take(i - 1) =~= s.take(i));
        assert(sd.skip(i + 1) =~= s.skip(i + 2));
        assert(!(s[0] == c0 && s[1] == c1));
        assert(spec_split_pair(s, c0, c1) =~= seq![s.take(i)] + spec_split_pair(
            s.skip(i + 2),
            c0,
            c1,
        ));
    }
}

/// When the first `lo` characters are whitespace and the one at `lo` (if any)
/// is not, trimming from the start drops exactly those characters.
pub proof fn lemma_trim_start_at(s: Seq<char>, lo: int)
    requires
        0 <= lo <= s.len(),
        forall|j: int| 0 <= j < lo ==> spec_is_space(s[j]),
        lo == s.len() || !spec_is_space(s[lo]),
    ensures
        spec_trim_start(s) == s.skip(lo),
    decreases lo,
{
    if lo == 0 {
        assert(s.skip(0) =~= s);
    } else {
        let sd = s.drop_first();
        lemma_trim_start_at(sd, lo - 1);
        assert(sd.skip(lo - 1) =~= s.skip(lo));
    }
}

/// When the characters from `hi` on are whitespace and the one before `hi`
/// (if any) is not, trimming from the end keeps exactly the first `hi`.
pub proof fn lemma_trim_end_at(s: Seq<char>, hi: int)
    requires
        0 <= hi <= s.len(),
        forall|j: int| hi <= j < s.len() ==> spec_is_space(s[j]),
        hi == 0 || !spec_is_space(s[hi - 1]),
    ensures
        spec_trim_end(s) == s.take(hi),
    decreases s.len(),
{
    if hi == s.len() {
        assert(s.take(hi) =~= s);
        if s.len() > 0 {
            assert(!spec_is_space(s.last()));
        }
    } else {
        let sd = s.drop_last();
        assert(spec_is_space(s.last()));
        lemma_trim_end_at(sd, hi);
        assert(sd.take(hi) =~= s.take(hi));
    }
}

/// The first occurrence of `c` is at `i` exactly when no earlier character is
/// `c` and the one at `i` is.
pub proof fn lemma_find_char_at(s: Seq<char>, c: char, i: int)
    requires
        0 <= i < s.len(),
        s[i] == c,
        forall|j: int| 0 <= j < i ==> s[j] != c,
    ensures
        spec_find_char(s, c) == Some(i),
    decreases i,
{
    if i == 0 {
    } else {
        lemma_find_char_at(s.drop_first(), c, i - 1);
    }
}

/// A string without `c` has no first occurrence of it.
pub proof fn lemma_find_char_none(s: Seq<char>, c: char)
    requires
        forall|j: int| 0 <= j < s.len() ==> s[j] != c,
    ensures
        spec_find_char(s, c) is None,
    decreases s.len(),
{
    if s.len() > 0 {
        lemma_find_char_none(s.drop_first(), c);
    }
}

/// The value of a digit string is non-negative.
pub proof fn lemma_digits_val_nonneg(s: Seq<char>)
    requires
        spec_all_digits(s),
    ensures
        spec_digits_val(s) >= 0,
    decreases s.len(),
{
    if s.len() > 0 {
        lemma_digits_val_nonneg(s.drop_last());
    }
}

/// Reading one more digit multiplies the prefix value by ten and adds it.
pub proof fn lemma_digits_val_snoc(s: Seq<char>, i: int)
    requires
        0 <= i < s.len(),
    ensures
        spec_digits_val(s.take(i + 1)) == spec_digits_val(s.take(i)) * 10 + spec_digit_val(
            s[i],
        ),
{
    assert(s.take(i + 1).drop_last() =~= s.take(i));
    assert(s.take(i + 1).last() == s[i]);
}

/// A digit string is worth at least any of its prefixes.
pub proof fn lemma_digits_val_prefix_le(s: Seq<char>, i: int)
    requires
        spec_all_digits(s),
        0 <= i <= s.len(),
    ensures
        spec_digits_val(s.take(i)) <= spec_digits_val(s),
    decreases s.len() - i,
{
    if i == s.len() {
        assert(s.take(i) =~= s);
    } else {
        lemma_digits_val_snoc(s, i);
        lemma_digits_val_nonneg(s.take(i));
        assert(spec_all_digits(s.take(i))) by {
            assert(forall|k: int| 0 <= k < i ==> s.take(i)[k] == s[k]);
        }
        assert(spec_digits_val(s.take(i)) <= spec_digits_val(s.take(i + 1))) by {
            lemma_digits_val_nonneg(s.take(i));
            assert(spec_is_digit(s[i]));
        }
        lemma_digits_val_prefix_le(s, i + 1);
    }
}

/// Appending one whitespace character does not change the tokens.
pub proof fn lemma_tokenize_snoc_space(s: Seq<char>, c: char)
    requires
        spec_is_space(c),
    ensures
        spec_tokenize(s.push(c)) == spec_tokenize(s),
    decreases s.len(),
{
    let t = s.push(c);
    if s.len() == 0 {
        assert(t.len() == 1 && t[0] == c);
        assert(t.drop_first() =~= Seq::<char>::empty());
        assert(spec_tokenize(Seq::<char>::empty()) == Seq::<Seq<char>>::empty());
        assert(spec_tokenize(t) == Seq::<Seq<char>>::empty());
    } else {
        assert(t.drop_first() =~= s.drop_first().push(c));
        lemma_tokenize_snoc_space(s.drop_first(), c);
        if spec_is_space(s[0]) {
        } else if s.len() == 1 {
            assert(t.len() == 2 && spec_is_space(t[1]));
            assert(spec_tokenize(t) =~= spec_tokenize(s));
        } else if spec_is_space(s[1]) {
            assert(t[1] == s[1]);
        } else {
            assert(t[1] == s[1]);
        }
    }
}

/// Trailing whitespace does not change the tokens.
pub proof fn lemma_tokenize_trim_end(s: Seq<char>)
    ensures
        spec_tokenize(spec_trim_end(s)) == spec_tokenize(s),
    decreases s.len(),
{
    if s.len() > 0 && spec_is_space(s.last()) {
        lemma_tokenize_trim_end(s.drop_last());
        assert(s =~= s.drop_last().push(s.last()));
        lemma_tokenize_snoc_space(s.drop_last(), s.last());
    }
}

/// Leading whitespace does not change the tokens.
pub proof fn lemma_tokenize_trim_start(s: Seq<char>)
    ensures
        spec_tokenize(spec_trim_start(s)) == spec_tokenize(s),
    decreases s.len(),
{
    if s.len() > 0 && spec_is_space(s[0]) {
        lemma_tokenize_trim_start(s.drop_first());
    }
}

/// Trimming does not change the tokens.
pub proof fn lemma_tokenize_trim(s: Seq<char>)
    ensures
        spec_tokenize(spec_trim(s)) == spec_tokenize(s),
{
    lemma_tokenize_trim_start(s);
    lemma_tokenize_trim_end(spec_trim_start(s));
}

/// The decimal rendering of a non-negative integer is a non-empty digit
/// string that reads back to the same value.
pub proof fn lemma_dec_nat_digits(n: nat)
    ensures
        spec_dec_nat(n).len() >= 1,
        spec_all_digits(spec_dec_nat(n)),
        spec_digits_val(spec_dec_nat(n)) == n,
    decreases n,
{
    if n < 10 {
        let s = spec_dec_nat(n);
        assert(s =~= seq![spec_digit_char(n as int)]);
        assert(s.drop_last() =~= Seq::<char>::empty());
        assert(spec_digits_val(Seq::<char>::empty()) == 0);
        assert(s.last() == spec_digit_char(n as int));
        assert(spec_digit_val(spec_digit_char(n as int)) == n);
        assert(spec_digits_val(s) == spec_digits_val(s.drop_last()) * 10 + spec_digit_val(
            s.last(),
        ));
    } else {
        lemma_dec_nat_digits(n / 10);
        let h = spec_dec_nat(n / 10);
        let s = spec_dec_nat(n);
        assert(s == h + seq![spec_digit_char((n % 10) as int)]);
        assert(s.drop_last() =~= h);
        assert(s.last() == spec_digit_char((n % 10) as int));
        assert(spec_digit_val(spec_digit_char((n % 10) as int)) == n % 10);
        assert(spec_all_digits(s)) by {
            assert(forall|j: int| 0 <= j < h.len() ==> s[j] == h[j]);
        }
        assert(spec_digits_val(s) == spec_digits_val(h) * 10 + n % 10);
    }
}

/// The decimal rendering of an integer is a well-formed signed decimal
/// string reading back to the same value, and every character of it is a
/// digit but for a leading minus sign.
pub proof fn lemma_dec_int_shape(v: int)
    ensures
        spec_dec_int(v).len() >= 1,
        spec_is_int_str(spec_dec_int(v)),
        spec_int_val(spec_dec_int(v)) == v,
        forall|j: int|
            0 <= j < spec_dec_int(v).len() ==> spec_is_digit(#[trigger] spec_dec_int(v)[j]) || (
            j == 0 && spec_dec_int(v)[j] == '-'),
{
    if v < 0 {
        lemma_dec_nat_digits((-v) as nat);
        let d = spec_dec_nat((-v) as nat);
        let s = spec_dec_int(v);
        assert(s == seq!['-'] + d);
        assert(s[0] == '-');
        assert(s.drop_first() =~= d);
        assert(spec_int_body(s) == d);
        assert(forall|j: int| 1 <= j < s.len() ==> s[j] == d[j - 1]);
    } else {
        lemma_dec_nat_digits(v as nat);
        let s = spec_dec_int(v);
        assert(s == spec_dec_nat(v as nat));
        assert(spec_is_digit(s[0]));
        assert(s[0] != '-' && s[0] != '+');
        assert(spec_int_body(s) == s);
    }
}

/// Character-for-character string equality.
pub fn str_eq(a: &str, b: &str) -> (r: bool)
    ensures
        r == (a@ == b@),
{
    let an = a.unicode_len();
    let bn = b.unicode_len();
    if an != bn {
        assert(a@ != b@);
        return false;
    }
    let mut i: usize = 0;
    while i < an
        invariant
            an == a@.len(),
            bn == b@.len(),
            an == bn,
            i <= an,
            forall|j: int| 0 <= j < i ==> a@[j] == b@[j],
        decreases an - i,
    {
        if a.get_char(i) != b.get_char(i) {
            assert(a@ != b@);
            return false;
        }
        i += 1;
    }
    proof {
        assert(a@ =~= b@);
    }
    true
}

/// Split `s` into its whitespace-separated tokens.
pub fn tokenize(s: &str) -> (r: Vec<String>)
    ensures
        r.deep_view() == spec_tokenize(s@),
{
    let n = s.unicode_len();
    let mut out: Vec<String> = Vec::new();
    let mut i: usize = 0;
    proof {
        assert(s@.skip(0) =~= s@);
        assert(out.deep_view() + spec_tokenize(s@.skip(0)) =~= spec_tokenize(s@));
    }
    while i < n
        invariant
            n == s@.len(),
            i <= n,
            spec_tokenize(s@) == out.deep_view() + spec_tokenize(s@.skip(i as int)),
        decreases n - i,
    {
        let c = s.get_char(i);
        if is_space_char(c) {
            proof {
                let t = s@.skip(i as int);
                lemma_tokenize_space(t);
                assert(t.drop_first() =~= s@.skip(i as int + 1));
            }
            i += 1;
        } else {
            let mut j: usize = i + 1;
            while j < n && !is_space_char(s.get_char(j))
                invariant
                    n == s@.len(),
                    i < j <= n,
                    forall|k: int| i <= k < j ==> !spec_is_space(s@[k]),
                decreases n - j,
            {
                j += 1;
            }
            let tok = s.substring_char(i, j).to_owned();
            let ghost prev = out.deep_view();
            out.push(tok);
            proof {
                let t = s@.skip(i as int);
                lemma_tokenize_step(t, j - i);
                assert(t.take(j - i) =~= s@.subrange(i as int, j as int));
                assert(t.skip(j - i) =~= s@.skip(j as int));
                assert(out.deep_view() =~= prev.push(s@.subrange(i as int, j as int)));
                assert(out.deep_view() + spec_tokenize(s@.skip(j as int)) =~= prev + (seq![
                    s@.subrange(i as int, j as int),
                ] + spec_tokenize(s@.skip(j as int))));
            }
            i = j;
        }
    }
    proof {
        assert(s@.skip(n as int) =~= Seq::<char>::empty());
        assert(out.deep_view() + spec_tokenize(s@.skip(n as int)) =~= out.deep_view());
    }
    out
}

/// `s` without leading and trailing whitespace.
pub fn trim_str<'a>(s: &'a str) -> (r: &'a str)
    ensures
        r@ == spec_trim(s@),
{
    let n = s.unicode_len();
    let mut lo: usize = 0;
    while lo < n && is_space_char(s.get_char(lo))
        invariant
            n == s@.len(),
            lo <= n,
            forall|j: int| 0 <= j < lo ==> spec_is_space(s@[j]),
        decreases n - lo,
    {
        lo += 1;
    }
    proof {
        lemma_trim_start_at(s@, lo as int);
    }
    if lo == n {
        let r = s.substring_char(0, 0);
        proof {
            assert(s@.skip(lo as int) =~= Seq::<char>::empty());
            assert(r@ =~= Seq::<char>::empty());
        }
        return r;
    }
    let mut hi: usize = n;
    while hi > lo && is_space_char(s.get_char(hi - 1))
        invariant
            n == s@.len(),
            lo <= hi <= n,
            forall|j: int| hi <= j < n ==> spec_is_space(s@[j]),
        decreases hi,
    {
        hi -= 1;
    }
    proof {
        assert(!spec_is_space(s@[lo as int]));
        assert(hi > lo);
        let t = s@.skip(lo as int);
        lemma_trim_end_at(t, hi - lo);
        assert(t.take(hi - lo) =~= s@.subrange(lo as int, hi as int));
    }
    s.substring_char(lo, hi)
}

/// Split `s` on the two-character separator `c0 c1`.
pub fn split_pair_str(s: &str, c0: char, c1: char) -> (r: Vec<String>)
    ensures
        r.deep_view() == spec_split_pair(s@, c0, c1),
{
    let n = s.unicode_len();
    let mut out: Vec<String> = Vec::new();
    let mut pos: usize = 0;
    let mut j: usize = 0;
    proof {
        assert(s@.skip(0) =~= s@);
        assert(out.deep_view() + spec_split_pair(s@.skip(0), c0, c1) =~= spec_split_pair(
            s@,
            c0,
            c1,
        ));
    }
    while j < n && j + 1 < n
        invariant
            n == s@.len(),
            pos <= j <= n,
            spec_split_pair(s@, c0, c1) == out.deep_view() + spec_split_pair(
                s@.skip(pos as int),
                c0,
                c1,
            ),
            forall|k: int|
                pos <= k < j ==> !(#[trigger] s@[k] == c0 && s@[k + 1] == c1),
        decreases n - j,
    {
        if s.get_char(j) == c0 && s.get_char(j + 1) == c1 {
            let part = s.substring_char(pos, j).to_owned();
            let ghost prev = out.deep_view();
            out.push(part);
            proof {
                let t = s@.skip(pos as int);
                lemma_split_some(t, c0, c1, j - pos);
                assert(t.take(j - pos) =~= s@.subrange(pos as int, j as int));
                assert(t.skip(j - pos + 2) =~= s@.skip(j as int + 2));
                assert(out.deep_view() =~= prev.push(s@.subrange(pos as int, j as int)));
                assert(out.deep_view() + spec_split_pair(s@.skip(j as int + 2), c0, c1) =~= prev
                    + (seq![s@.subrange(pos as int, j as int)] + spec_split_pair(
                    s@.skip(j as int + 2),
                    c0,
                    c1,
                )));
            }
            pos = j + 2;
            j = pos;
        } else {
            j += 1;
        }
    }
    let last = s.substring_char(pos, n).to_owned();
    let ghost prev = out.deep_view();
    out.push(last);
    proof {
        let t = s@.skip(pos as int);
        assert(forall|k: int|
            0 <= k && k + 1 < t.len() ==> !(#[trigger] t[k] == c0 && t[k + 1] == c1)) by {
            assert(forall|k: int|
                pos <= k && k + 1 < n ==> !(#[trigger] s@[k] == c0 && s@[k + 1] == c1));
        }
        lemma_split_none(t, c0, c1);
        assert(t =~= s@.subrange(pos as int, n as int));
        assert(out.deep_view() =~= prev.push(t));
        assert(out.deep_view() =~= prev + seq![t]);
    }
    out
}

/// Join the tokens of `ts` from index `from` on, with single spaces between.
pub fn join_spaces_from(ts: &Vec<String>, from: usize) -> (r: String)
    requires
        from <= ts.len(),
    ensures
        r@ == spec_join_spaces(ts.deep_view().skip(from as int)),
    decreases ts.len() - from,
{
    let ghost dv = ts.deep_view();
    if from == ts.len() {
        proof {
            assert(dv.skip(from as int) =~= Seq::<Seq<char>>::empty());
        }
        String::new()
    } else if from + 1 == ts.len() {
        let mut r = String::new();
        r.append(ts[from].as_str());
        proof {
            assert(dv.skip(from as int) =~= seq![dv[from as int]]);
        }
        r
    } else {
        let mut r = String::new();
        r.append(ts[from].as_str());
        r.append(" ");
        let rest = join_spaces_from(ts, from + 1);
        r.append(rest.as_str());
        proof {
            reveal_strlit(" ");
            assert(" "@ =~= seq![' ']);
            let t = dv.skip(from as int);
            assert(t.drop_first() =~= dv.skip(from as int + 1));
            assert(t[0] == dv[from as int]);
            assert(r@ =~= t[0] + seq![' '] + spec_join_spaces(t.drop_first()));
        }
        r
    }
}

/// Parse a signed decimal integer exactly as the expression grammar accepts
/// one: an optional sign, then digits, with the value fitting in an `i32`.
pub fn parse_i32(s: &str) -> (r: Option<i32>)
    ensures
        match r {
            Some(v) => spec_is_i32_str(s@) && v as int == spec_int_val(s@),
            None => !spec_is_i32_str(s@),
        },
{
    let n = s.unicode_len();
    if n == 0 {
        return None;
    }
    let c0 = s.get_char(0);
    let neg = c0 == '-';
    let start: usize = if c0 == '-' || c0 == '+' {
        1
    } else {
        0
    };
    let ghost body = s@.subrange(start as int, n as int);
    proof {
        assert(body =~= spec_int_body(s@));
    }
    if start == n {
        return None;
    }
    let mut acc: u64 = 0;
    let mut k: usize = start;
    while k < n
        invariant
            n == s@.len(),
            start <= k <= n,
            start < n,
            body == s@.subrange(start as int, n as int),
            body == spec_int_body(s@),
            acc == spec_digits_val(body.take(k as int - start as int)),
            acc <= 0x1_0000_0000u64,
            forall|j: int| start <= j < k ==> spec_is_digit(s@[j]),
        decreases n - k,
    {
        let c = s.get_char(k);
        if !('0' <= c && c <= '9') {
            proof {
                assert(body[k as int - start as int] == s@[k as int]);
                assert(!spec_is_digit(body[k as int - start as int]));
            }
            return None;
        }
        let d: u64 = (c as u32 - '0' as u32) as u64;
        proof {
            lemma_digits_val_snoc(body, k as int - start as int);
        }
        acc = acc * 10 + d;
        k += 1;
        if acc > 0x1_0000_0000u64 {
            proof {
                if spec_all_digits(body) {
                    lemma_digits_val_prefix_le(body, k as int - start as int);
                    assert(body.take(k as int - start as int) =~= s@.subrange(
                        start as int,
                        k as int,
                    ));
                }
            }
            return None;
        }
    }
    proof {
        assert(body.take(n as int - start as int) =~= body);
        assert(spec_all_digits(body));
        assert(spec_is_int_str(s@));
    }
    if neg {
        if acc > 0x8000_0000u64 {
            return None;
        }
        let v: i64 = -(acc as i64);
        Some(v as i32)
    } else {
        if acc > 0x7fff_ffffu64 {
            return None;
        }
        Some(acc as i32)
    }
}

/// Render a non-negative integer in decimal.
pub fn u64_to_string(n: u64) -> (r: String)
    ensures
        r@ == spec_dec_nat(n as nat),
    decreases n,
{
    let digits = "0123456789";
    proof {
        reveal_strlit("0123456789");
    }
    if n < 10 {
        let d = digits.substring_char(n as usize, n as usize + 1);
        proof {
            assert(d@ =~= seq![spec_digit_char(n as int)]);
        }
        d.to_owned()
    } else {
        let high = u64_to_string(n / 10);
        let d = digits.substring_char((n % 10) as usize, (n % 10) as usize + 1);
        let r = high.concat(d);
        proof {
            assert(d@ =~= seq![spec_digit_char((n % 10) as int)]);
            assert((n as nat) / 10 == (n / 10) as nat);
            assert((n as nat) % 10 == (n % 10) as nat);
        }
        r
    }
}

/// Render a signed integer in decimal, with a leading `-` when negative.
pub fn i32_to_string(v: i32) -> (r: String)
    ensures
        r@ == spec_dec_int(v as int),
{
    if v >= 0 {
        let r = u64_to_string(v as u64);
        r
    } else {
        let mag: u64 = (-(v as i64)) as u64;
        let mut r = String::new();
        r.append("-");
        let digits = u64_to_string(mag);
        r.append(digits.as_str());
        proof {
            reveal_strlit("-");
            assert("-"@ =~= seq!['-']);
            assert(r@ =~= seq!['-'] + spec_dec_nat((-(v as int)) as nat));
        }
        r
    }
}

} // verus!
