//! Character-level string helpers the descriptor parser and the ranking
//! engine build on: prefix tests, repeated prefix stripping, line splitting,
//! lexicographic comparison and decimal rendering.

use vstd::prelude::*;
use vstd::string::StrSliceExecFns;
use vstd::string::StringExecFns;

verus! {

/// True when `p` is a prefix of `s`.
pub fn has_prefix(s: &str, p: &str) -> (r: bool)
    ensures
        r == p@.is_prefix_of(s@),
{
    let np = p.unicode_len();
    let ns = s.unicode_len();
    if np > ns {
        return false;
    }
    let mut i: usize = 0;
    while i < np
        invariant
            0 <= i <= np,
            np == p@.len(),
            ns == s@.len(),
            np <= ns,
            forall|j: int| 0 <= j < i ==> s@[j] == p@[j],
        decreases np - i,
    {
        if s.get_char(i) != p.get_char(i) {
            return false;
        }
        i = i + 1;
    }
    assert(p@.is_prefix_of(s@)) by {
        assert(p@ =~= s@.take(np as int));
    }
    true
}

/// `s` with every leading repetition of `p` removed.
pub open spec fn strip_all(s: Seq<char>, p: Seq<char>) -> Seq<char>
    recommends
        p.len() > 0,
    decreases s.len(),
{
    if p.len() > 0 && p.len() <= s.len() && p.is_prefix_of(s) {
        strip_all(s.skip(p.len() as int), p)
    } else {
        s
    }
}

/// Removes every leading repetition of `p` from `s`.
pub fn trim_prefix_all<'a>(s: &'a str, p: &str) -> (r: &'a str)
    requires
        p@.len() > 0,
    ensures
        r@ == strip_all(s@, p@),
{
    let mut cur: &str = s;
    loop
        invariant
            p@.len() > 0,
            strip_all(cur@, p@) == strip_all(s@, p@),
        decreases cur@.len(),
    {
        if !has_prefix(cur, p) {
            return cur;
        }
        let np = p.unicode_len();
        let nc = cur.unicode_len();
        let next = cur.substring_char(np, nc);
        assert(next@ == cur@.skip(np as int));
        cur = next;
    }
}

/// Strict lexicographic order on character sequences, by code point.
pub open spec fn lex_lt(a: Seq<char>, b: Seq<char>) -> bool
    decreases a.len(),
{
    if b.len() == 0 {
        false
    } else if a.len() == 0 {
        true
    } else if (a[0] as int) < (b[0] as int) {
        true
    } else if (a[0] as int) > (b[0] as int) {
        false
    } else {
        lex_lt(a.drop_first(), b.drop_first())
    }
}

/// Compares two strings lexicographically by code point.
pub fn str_lt(a: &str, b: &str) -> (r: bool)
    ensures
        r == lex_lt(a@, b@),
{
    let na = a.unicode_len();
    let nb = b.unicode_len();
    let mut i: usize = 0;
    proof {
        assert(a@.skip(0) =~= a@);
        assert(b@.skip(0) =~= b@);
    }
    loop
        invariant
            0 <= i <= na,
            i <= nb,
            na == a@.len(),
            nb == b@.len(),
            lex_lt(a@, b@) == lex_lt(a@.skip(i as int), b@.skip(i as int)),
        decreases na - i,
    {
        if i == nb {
            proof {
                assert(b@.skip(i as int).len() == 0);
            }
            return false;
        }
        if i == na {
            proof {
                assert(a@.skip(i as int).len() == 0);
                assert(b@.skip(i as int).len() > 0);
            }
            return true;
        }
        let ca = a.get_char(i);
        let cb = b.get_char(i);
        proof {
            assert(a@.skip(i as int)[0] == a@[i as int]);
            assert(b@.skip(i as int)[0] == b@[i as int]);
        }
        if (ca as u32) < (cb as u32) {
            return true;
        }
        if (ca as u32) > (cb as u32) {
            return false;
        }
        proof {
            assert(a@.skip(i as int).drop_first() =~= a@.skip(i + 1));
            assert(b@.skip(i as int).drop_first() =~= b@.skip(i + 1));
        }
        i = i + 1;
    }
}

/// What lowercasing a string yields: the result depends on the
/// characters alone.
pub uninterp spec fn lower_of(s: Seq<char>) -> Seq<char>;

/// Relies on str::to_lowercase: its result is a function of the
/// characters alone, and an empty string stays empty.
#[verifier::external_body]
pub(crate) fn lowercase(s: &str) -> (r: String)
    ensures
        r@ == lower_of(s@),
        s@.len() == 0 ==> r@.len() == 0,
{
    s.to_lowercase()
}

/// Asymmetry: two sequences cannot each precede the other.
pub proof fn lemma_lex_lt_asymmetric(a: Seq<char>, b: Seq<char>)
    ensures
        !(lex_lt(a, b) && lex_lt(b, a)),
    decreases a.len(),
{
    if b.len() > 0 && a.len() > 0 {
        if (a[0] as int) == (b[0] as int) {
            lemma_lex_lt_asymmetric(a.drop_first(), b.drop_first());
        }
    }
}

/// True when `s` spells "true" in any mix of upper and lower case.
pub open spec fn is_true_ci(s: Seq<char>) -> bool {
    s.len() == 4 && (s[0] == 't' || s[0] == 'T') && (s[1] == 'r' || s[1] == 'R') && (s[2] == 'u'
        || s[2] == 'U') && (s[3] == 'e' || s[3] == 'E')
}

/// Tests whether `s` spells "true", ignoring case.
pub fn eq_true_ci(s: &str) -> (r: bool)
    ensures
        r == is_true_ci(s@),
{
    if s.unicode_len() != 4 {
        return false;
    }
    let c0 = s.get_char(0);
    let c1 = s.get_char(1);
    let c2 = s.get_char(2);
    let c3 = s.get_char(3);
    (c0 == 't' || c0 == 'T') && (c1 == 'r' || c1 == 'R') && (c2 == 'u' || c2 == 'U') && (c3 == 'e'
        || c3 == 'E')
}

/// Compares two strings for equality of their characters.
pub fn str_eq(a: &str, b: &str) -> (r: bool)
    ensures
        r == (a@ == b@),
{
    if a.unicode_len() != b.unicode_len() {
        return false;
    }
    let r = has_prefix(a, b);
    proof {
        if b@.is_prefix_of(a@) {
            assert(a@ =~= b@);
        }
        if a@ == b@ {
            assert(b@.is_prefix_of(a@));
        }
    }
    r
}

/// A line segment with one carriage return dropped from its end, as a
/// newline-terminated line keeps no `\r`.
pub open spec fn strip_cr(l: Seq<char>) -> Seq<char> {
    if l.len() > 0 && l.last() == '\r' {
        l.drop_last()
    } else {
        l
    }
}

/// The lines of `s`: segments split at `'\n'`, each with a trailing `'\r'`
/// removed; a final segment without a newline is kept as it stands, and a
/// trailing newline adds no empty line.
pub open spec fn spec_lines(s: Seq<char>) -> Seq<Seq<char>>
    decreases s.len(),
    via spec_lines_decreases
{
    if s.len() == 0 {
        Seq::empty()
    } else {
        match s.index_of_first('\n') {
            Option::None => seq![s],
            Option::Some(i) => seq![strip_cr(s.take(i))] + spec_lines(s.skip(i + 1)),
        }
    }
}

#[via_fn]
proof fn spec_lines_decreases(s: Seq<char>) {
    if s.len() > 0 {
        s.index_of_first_ensures('\n');
    }
}

/// Splits `s` into its lines.
pub fn split_lines(s: &str) -> (r: Vec<String>)
    ensures
        r@.map_values(|l: String| l@) == spec_lines(s@),
{
    let n = s.unicode_len();
    let mut r: Vec<String> = Vec::new();
    let mut start: usize = 0;
    proof {
        assert(s@.skip(0) =~= s@);
        assert(r@.map_values(|l: String| l@) =~= Seq::<Seq<char>>::empty());
    }
    loop
        invariant
            start <= n,
            n == s@.len(),
            spec_lines(s@) == r@.map_values(|l: String| l@) + spec_lines(s@.skip(start as int)),
        decreases n - start,
    {
        if start == n {
            proof {
                assert(s@.skip(start as int).len() == 0);
                assert(r@.map_values(|l: String| l@) + spec_lines(s@.skip(start as int)) =~= r@
                    .map_values(|l: String| l@));
            }
            return r;
        }
        let ghost suffix = s@.skip(start as int);
        let mut j = start;
        while j < n && s.get_char(j) != '\n'
            invariant
                start <= j <= n,
                n == s@.len(),
                forall|k: int| start <= k < j ==> s@[k] != '\n',
            decreases n - j,
        {
            j = j + 1;
        }
        proof {
            suffix.index_of_first_ensures('\n');
        }
        if j == n {
            proof {
                if suffix.index_of_first('\n') is Some {
                    let i = suffix.index_of_first('\n')->Some_0;
                    assert(s@[start + i] == '\n');
                    assert(false);
                }
                assert(spec_lines(suffix) =~= seq![suffix]);
            }
            let seg = s.substring_char(start, n);
            let ghost prev = r@;
            let owned = seg.to_owned();
            r.push(owned);
            proof {
                assert(suffix =~= seg@);
                assert(r@.map_values(|l: String| l@) =~= prev.map_values(|l: String| l@).push(
                    suffix,
                ));
                assert(s@.skip(n as int).len() == 0);
                assert(prev.map_values(|l: String| l@) + spec_lines(suffix) =~= r@.map_values(
                    |l: String| l@,
                ) + spec_lines(s@.skip(n as int)));
            }
            start = n;
        } else {
            proof {
                assert(s@[j as int] == '\n');
                assert(suffix[j - start] == '\n');
                assert(suffix.contains('\n'));
                let i = suffix.index_of_first('\n')->Some_0;
                if i < j - start {
                    assert(s@[start + i] == '\n');
                    assert(false);
                }
                if i > j - start {
                    assert(suffix[j - start] != '\n');
                    assert(false);
                }
                assert(i == j - start);
                assert(suffix.take(i) =~= s@.subrange(start as int, j as int));
                assert(suffix.skip(i + 1) =~= s@.skip(j + 1));
            }
            let seg: &str = if j > start && s.get_char(j - 1) == '\r' {
                let sub = s.substring_char(start, j - 1);
                proof {
                    let segq = s@.subrange(start as int, j as int);
                    assert(segq.len() > 0 && segq.last() == '\r');
                    assert(strip_cr(segq) =~= sub@);
                }
                sub
            } else {
                let sub = s.substring_char(start, j);
                proof {
                    let segq = s@.subrange(start as int, j as int);
                    assert(strip_cr(segq) =~= sub@);
                }
                sub
            };
            let ghost prev = r@;
            let owned = seg.to_owned();
            r.push(owned);
            proof {
                let i = suffix.index_of_first('\n')->Some_0;
                assert(spec_lines(suffix) == seq![strip_cr(suffix.take(i))] + spec_lines(
                    suffix.skip(i + 1),
                ));
                assert(r@.map_values(|l: String| l@) =~= prev.map_values(|l: String| l@).push(
                    seg@,
                ));
                assert(prev.map_values(|l: String| l@) + spec_lines(suffix) =~= r@.map_values(
                    |l: String| l@,
                ) + spec_lines(s@.skip(j + 1)));
            }
            start = j + 1;
        }
    }
}

/// The segments of `s` split at `';'`; empty segments are kept, and an
/// empty input yields one empty segment.
pub open spec fn split_semi(s: Seq<char>) -> Seq<Seq<char>>
    decreases s.len(),
    via split_semi_decreases
{
    match s.index_of_first(';') {
        Option::None => seq![s],
        Option::Some(i) => seq![s.take(i)] + split_semi(s.skip(i + 1)),
    }
}

#[via_fn]
proof fn split_semi_decreases(s: Seq<char>) {
    s.index_of_first_ensures(';');
}

/// Splits `s` at every `';'`.
pub fn split_semicolons(s: &str) -> (r: Vec<String>)
    ensures
        r@.map_values(|l: String| l@) == split_semi(s@),
{
    let n = s.unicode_len();
    let mut r: Vec<String> = Vec::new();
    let mut start: usize = 0;
    proof {
        assert(s@.skip(0) =~= s@);
        assert(r@.map_values(|l: String| l@) =~= Seq::<Seq<char>>::empty());
    }
    loop
        invariant
            start <= n,
            n == s@.len(),
            split_semi(s@) == r@.map_values(|l: String| l@) + split_semi(s@.skip(start as int)),
        decreases n + 1 - start,
    {
        let ghost suffix = s@.skip(start as int);
        let mut j = start;
        while j < n && s.get_char(j) != ';'
            invariant
                start <= j <= n,
                n == s@.len(),
                forall|k: int| start <= k < j ==> s@[k] != ';',
            decreases n - j,
        {
            j = j + 1;
        }
        proof {
            suffix.index_of_first_ensures(';');
        }
        let seg = s.substring_char(start, j);
        let ghost prev = r@;
        let owned = seg.to_owned();
        r.push(owned);
        proof {
            assert(r@.map_values(|l: String| l@) =~= prev.map_values(|l: String| l@).push(seg@));
        }
        if j == n {
            proof {
                if suffix.index_of_first(';') is Some {
                    let i = suffix.index_of_first(';')->Some_0;
                    assert(s@[start + i] == ';');
                    assert(false);
                }
                assert(seg@ =~= suffix);
                assert(prev.map_values(|l: String| l@) + split_semi(suffix) =~= r@.map_values(
                    |l: String| l@,
                ));
            }
            return r;
        } else {
            proof {
                assert(s@[j as int] == ';');
                assert(suffix[j - start] == ';');
                assert(suffix.contains(';'));
                let i = suffix.index_of_first(';')->Some_0;
                if i < j - start {
                    assert(s@[start + i] == ';');
                    assert(false);
                }
                if i > j - start {
                    assert(suffix[j - start] != ';');
                    assert(false);
                }
                assert(i == j - start);
                assert(suffix.take(i) =~= seg@);
                assert(suffix.skip(i + 1) =~= s@.skip(j + 1));
                assert(prev.map_values(|l: String| l@) + split_semi(suffix) =~= r@.map_values(
                    |l: String| l@,
                ) + split_semi(s@.skip(j + 1)));
            }
            start = j + 1;
        }
    }
}

/// The characters a field-code placeholder may carry after its `'%'`.
pub open spec fn is_field_code(c: char) -> bool {
    c == 'c' || c == 'D' || c == 'd' || c == 'F' || c == 'f' || c == 'i' || c == 'k' || c == 'm'
        || c == 'N' || c == 'n' || c == 'U' || c == 'u' || c == 'v'
}

/// A field code (`"%x"`) stands at `i`.
pub open spec fn fc_at(s: Seq<char>, i: int) -> bool {
    0 <= i && i + 2 <= s.len() && s[i] == '%' && is_field_code(s[i + 1])
}

/// The start of the last field code at or before position `i`.
pub open spec fn last_fc_at(s: Seq<char>, i: int) -> Option<int>
    decreases i + 1,
{
    if i < 0 {
        Option::None
    } else if fc_at(s, i) {
        Option::Some(i)
    } else {
        last_fc_at(s, i - 1)
    }
}

/// `s` with its last field-code occurrence removed, one directly
/// preceding space included, and only that one: earlier occurrences stay.
pub open spec fn strip_field_code(s: Seq<char>) -> Seq<char> {
    match last_fc_at(s, s.len() - 2) {
        Option::None => s,
        Option::Some(p) => if p > 0 && s[p - 1] == ' ' {
            s.take(p - 1) + s.skip(p + 2)
        } else {
            s.take(p) + s.skip(p + 2)
        },
    }
}

/// Whether `c` may follow `'%'` in a field code.
fn is_field_code_char(c: char) -> (r: bool)
    ensures
        r == is_field_code(c),
{
    c == 'c' || c == 'D' || c == 'd' || c == 'F' || c == 'f' || c == 'i' || c == 'k' || c == 'm'
        || c == 'N' || c == 'n' || c == 'U' || c == 'u' || c == 'v'
}

/// Removes the last field-code occurrence from `s`, together with one
/// space directly before it, when there is one.
pub fn remove_field_code(s: &str) -> (r: String)
    ensures
        r@ == strip_field_code(s@),
{
    let n = s.unicode_len();
    if n < 2 {
        return s.to_owned();
    }
    let mut p: usize = n - 2;
    loop
        invariant
            0 <= p <= n - 2,
            n == s@.len(),
            n >= 2,
            last_fc_at(s@, s@.len() - 2) == last_fc_at(s@, p as int),
        decreases p,
    {
        if s.get_char(p) == '%' && is_field_code_char(s.get_char(p + 1)) {
            proof {
                assert(fc_at(s@, p as int));
            }
            if p > 0 && s.get_char(p - 1) == ' ' {
                let head = s.substring_char(0, p - 1);
                let tail = s.substring_char(p + 2, n);
                let out = head.to_owned().concat(tail);
                proof {
                    assert(out@ =~= s@.take(p - 1) + s@.skip(p + 2));
                }
                return out;
            } else {
                let head = s.substring_char(0, p);
                let tail = s.substring_char(p + 2, n);
                let out = head.to_owned().concat(tail);
                proof {
                    assert(out@ =~= s@.take(p as int) + s@.skip(p + 2));
                }
                return out;
            }
        }
        proof {
            assert(!fc_at(s@, p as int));
        }
        if p == 0 {
            return s.to_owned();
        }
        p = p - 1;
    }
}

/// The decimal digit character for `d`.
pub open spec fn dec_digit(d: int) -> char
    recommends
        0 <= d < 10,
{
    (48 + d) as char
}

/// The decimal representation of a non-negative number.
pub open spec fn dec_rep(n: int) -> Seq<char>
    recommends
        n >= 0,
    decreases n,
{
    if n < 10 {
        seq![dec_digit(n)]
    } else {
        dec_rep(n / 10).push(dec_digit(n % 10))
    }
}

/// The decimal representation of a number, with a leading minus sign
/// when it is negative.
pub open spec fn dec_rep_signed(n: int) -> Seq<char> {
    if n < 0 {
        seq!['-'] + dec_rep(-n)
    } else {
        dec_rep(n)
    }
}

/// The one-character string for digit `d`.
fn digit_str(d: u64) -> (r: &'static str)
    requires
        d < 10,
    ensures
        r@ == seq![dec_digit(d as int)],
{
    proof {
        reveal_strlit("0");
        reveal_strlit("1");
        reveal_strlit("2");
        reveal_strlit("3");
        reveal_strlit("4");
        reveal_strlit("5");
        reveal_strlit("6");
        reveal_strlit("7");
        reveal_strlit("8");
        reveal_strlit("9");
    }
    let r: &'static str = if d == 0 {
        "0"
    } else if d == 1 {
        "1"
    } else if d == 2 {
        "2"
    } else if d == 3 {
        "3"
    } else if d == 4 {
        "4"
    } else if d == 5 {
        "5"
    } else if d == 6 {
        "6"
    } else if d == 7 {
        "7"
    } else if d == 8 {
        "8"
    } else {
        "9"
    };
    proof {
        assert(r@ =~= seq![dec_digit(d as int)]);
    }
    r
}

/// Appends the decimal representation of `n` to `out`.
fn push_dec_u64(out: &mut String, n: u64)
    ensures
        final(out)@ == old(out)@ + dec_rep(n as int),
    decreases n,
{
    if n < 10 {
        out.append(digit_str(n));
    } else {
        push_dec_u64(out, n / 10);
        out.append(digit_str(n % 10));
        proof {
            assert(old(out)@ + dec_rep((n / 10) as int) + seq![
                dec_digit((n % 10) as int),
            ] =~= old(out)@ + dec_rep(n as int));
        }
    }
}

/// Renders an unsigned counter in decimal.
pub fn u64_to_string(n: u64) -> (r: String)
    ensures
        r@ == dec_rep(n as int),
{
    let mut out = String::new();
    push_dec_u64(&mut out, n);
    proof {
        assert(Seq::<char>::empty() + dec_rep(n as int) =~= dec_rep(n as int));
    }
    out
}

/// Renders a signed score in decimal.
pub fn i64_to_string(n: i64) -> (r: String)
    ensures
        r@ == dec_rep_signed(n as int),
{
    if n >= 0 {
        u64_to_string(n as u64)
    } else {
        let m: u64 = (-(n as i128)) as u64;
        proof {
            reveal_strlit("-");
        }
        let mut out = String::from_str("-");
        push_dec_u64(&mut out, m);
        proof {
            assert("-"@ + dec_rep(m as int) =~= dec_rep_signed(n as int));
        }
        out
    }
}

} // verus!
