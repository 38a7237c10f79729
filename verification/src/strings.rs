use vstd::prelude::*;
use vstd::string::StrSliceExecFns;
use vstd::string::StringExecFns;

verus! {

/// Exact character-for-character equality of two string slices.
pub fn str_eq(a: &str, b: &str) -> (r: bool)
    ensures
        r == (a@ == b@),
{
    let sa: String = a.to_owned();
    let sb: String = b.to_owned();
    sa == sb
}

/// Equality of two optional strings, by characters.
pub fn opt_str_eq(a: &Option<String>, b: &Option<String>) -> (r: bool)
    ensures
        r == match (a, b) {
            (Some(x), Some(y)) => x@ == y@,
            (None, None) => true,
            _ => false,
        },
{
    match (a, b) {
        (Some(x), Some(y)) => str_eq(x.as_str(), y.as_str()),
        (None, None) => true,
        _ => false,
    }
}

/// The characters of a string slice, as a vector.
pub fn chars_of(s: &str) -> (v: Vec<char>)
    ensures
        v@ == s@,
{
    let n: usize = s.unicode_len();
    let mut v: Vec<char> = Vec::new();
    let mut i: usize = 0;
    while i < n
        invariant
            n == s@.len(),
            i <= n,
            v@ == s@.take(i as int),
        decreases n - i,
    {
        let c: char = s.get_char(i);
        v.push(c);
        proof {
            assert(s@.take(i as int + 1) =~= s@.take(i as int).push(s@[i as int]));
        }
        i = i + 1;
    }
    proof {
        assert(s@.take(n as int) =~= s@);
    }
    v
}

/// True when `pat` occurs in `s` starting at position `i`.
pub open spec fn contains_at(s: Seq<char>, pat: Seq<char>, i: int) -> bool {
    0 <= i && i + pat.len() <= s.len() && s.subrange(i, i + pat.len() as int) == pat
}

/// The position of the leftmost occurrence of a non-empty `pat` in `s` at or
/// after `from`, if there is one.
pub open spec fn first_match_from(s: Seq<char>, pat: Seq<char>, from: int) -> Option<int>
    decreases s.len() - from,
{
    if from < 0 || pat.len() == 0 || from + pat.len() > s.len() {
        None
    } else if contains_at(s, pat, from) {
        Some(from)
    } else {
        first_match_from(s, pat, from + 1)
    }
}

/// Leftmost occurrence of `pat` in the character vector `s`, as
/// `str::find` reports it, but counted in characters.
pub fn find_first(s: &Vec<char>, pat: &Vec<char>) -> (r: Option<usize>)
    ensures
        match r {
            Some(i) => first_match_from(s@, pat@, 0) == Some(i as int),
            None => first_match_from(s@, pat@, 0) is None,
        },
{
    let n: usize = s.len();
    let m: usize = pat.len();
    if m > n || m == 0 {
        return None;
    }
    let mut i: usize = 0;
    while i <= n - m
        invariant
            0 < m <= n,
            n == s@.len(),
            m == pat@.len(),
            0 <= i <= n - m + 1,
            first_match_from(s@, pat@, 0) == first_match_from(s@, pat@, i as int),
        decreases n - i,
    {
        let mut j: usize = 0;
        let mut ok: bool = true;
        proof {
            assert(s@.subrange(i as int, i as int) =~= pat@.subrange(0, 0));
        }
        while j < m
            invariant
                0 < m <= n,
                n == s@.len(),
                m == pat@.len(),
                i + m <= n,
                0 <= j <= m,
                ok == (s@.subrange(i as int, i + j as int) == pat@.subrange(0, j as int)),
            decreases m - j,
        {
            proof {
                let sfull = s@.subrange(i as int, i + j as int + 1);
                let pfull = pat@.subrange(0, j as int + 1);
                assert(sfull[j as int] == s@[i + j]);
                assert(pfull[j as int] == pat@[j as int]);
                assert(sfull.subrange(0, j as int) =~= s@.subrange(i as int, i + j as int));
                assert(pfull.subrange(0, j as int) =~= pat@.subrange(0, j as int));
                if s@.subrange(i as int, i + j as int) == pat@.subrange(0, j as int) && s@[i + j]
                    == pat@[j as int] {
                    assert(sfull =~= pfull);
                }
            }
            ok = ok && (s[i + j] == pat[j]);
            j = j + 1;
        }
        proof {
            assert(pat@.subrange(0, m as int) =~= pat@);
            assert(contains_at(s@, pat@, i as int) == (s@.subrange(i as int, i + m as int)
                == pat@));
        }
        if ok {
            return Some(i);
        }
        i = i + 1;
    }
    None
}

/// A found leftmost occurrence really is an occurrence, and no earlier
/// position is one.
pub proof fn lemma_first_match_is_match(s: Seq<char>, pat: Seq<char>, from: int)
    requires
        first_match_from(s, pat, from) is Some,
    ensures
        contains_at(s, pat, first_match_from(s, pat, from).unwrap()),
        first_match_from(s, pat, from).unwrap() >= from,
    decreases s.len() - from,
{
    if !(from < 0 || pat.len() == 0 || from + pat.len() > s.len()) && !contains_at(s, pat, from) {
        lemma_first_match_is_match(s, pat, from + 1);
    }
}

/// An ASCII decimal digit.
pub open spec fn is_digit(c: char) -> bool {
    '0' <= c && c <= '9'
}

/// Numeric value of an ASCII digit.
pub open spec fn digit_val(c: char) -> int {
    c as int - '0' as int
}

/// The maximal run of ASCII digits in `s` starting at `from`.
pub open spec fn digit_run(s: Seq<char>, from: int) -> Seq<char>
    decreases s.len() - from,
{
    if 0 <= from < s.len() && is_digit(s[from]) {
        seq![s[from]] + digit_run(s, from + 1)
    } else {
        Seq::empty()
    }
}

/// The number that a sequence of ASCII digits denotes, most significant first.
pub open spec fn digits_value(ds: Seq<char>) -> int
    decreases ds.len(),
{
    if ds.len() == 0 {
        0
    } else {
        digits_value(ds.drop_last()) * 10 + digit_val(ds.last())
    }
}

/// Every character of `ds` is an ASCII digit.
pub open spec fn all_digits(ds: Seq<char>) -> bool {
    forall|k: int| 0 <= k < ds.len() ==> is_digit(#[trigger] ds[k])
}

proof fn lemma_digit_run_all_digits(s: Seq<char>, from: int)
    ensures
        all_digits(digit_run(s, from)),
    decreases s.len() - from,
{
    if 0 <= from < s.len() && is_digit(s[from]) {
        lemma_digit_run_all_digits(s, from + 1);
        let rest = digit_run(s, from + 1);
        assert forall|k: int| 0 <= k < digit_run(s, from).len() implies is_digit(
            #[trigger] digit_run(s, from)[k],
        ) by {
            if k > 0 {
                assert(digit_run(s, from)[k] == rest[k - 1]);
            }
        }
    }
}

proof fn lemma_digits_value_nonneg(ds: Seq<char>)
    requires
        all_digits(ds),
    ensures
        digits_value(ds) >= 0,
    decreases ds.len(),
{
    if ds.len() > 0 {
        assert(all_digits(ds.drop_last()));
        lemma_digits_value_nonneg(ds.drop_last());
    }
}

proof fn lemma_digits_value_prefix_le(ds: Seq<char>, k: int)
    requires
        all_digits(ds),
        0 <= k <= ds.len(),
    ensures
        digits_value(ds.take(k)) <= digits_value(ds),
    decreases ds.len() - k,
{
    if k == ds.len() {
        assert(ds.take(k) =~= ds);
    } else {
        lemma_digits_value_prefix_le(ds, k + 1);
        let p = ds.take(k + 1);
        assert(p.drop_last() =~= ds.take(k));
        assert(all_digits(p));
        lemma_digits_value_nonneg(ds.take(k));
        assert(digits_value(p) == digits_value(ds.take(k)) * 10 + digit_val(ds[k]));
    }
}

/// If everything from `from` up to `k` is a digit, the digit run starting at
/// `from` is those characters followed by the run starting at `k`.
proof fn lemma_digit_run_split(s: Seq<char>, from: int, k: int)
    requires
        0 <= from <= k <= s.len(),
        forall|j: int| from <= j < k ==> is_digit(#[trigger] s[j]),
    ensures
        digit_run(s, from) =~= s.subrange(from, k) + digit_run(s, k),
    decreases k - from,
{
    if from < k {
        lemma_digit_run_split(s, from + 1, k);
        assert(s.subrange(from, k) =~= seq![s[from]] + s.subrange(from + 1, k));
    }
}

/// The value of the maximal ASCII-digit run in `s` starting at `from`:
/// `None` when the run is empty or its value does not fit in a `u64`.
pub open spec fn spec_parse_digit_run(s: Seq<char>, from: int) -> Option<u64> {
    let ds = digit_run(s, from);
    if ds.len() == 0 {
        None
    } else if digits_value(ds) <= u64::MAX {
        Some(digits_value(ds) as u64)
    } else {
        None
    }
}

/// Reads the maximal ASCII-digit run in `s` starting at `from` as a number.
pub fn parse_digit_run(s: &Vec<char>, from: usize) -> (r: Option<u64>)
    requires
        from <= s@.len(),
    ensures
        r == spec_parse_digit_run(s@, from as int),
{
    proof {
        lemma_digit_run_all_digits(s@, from as int);
    }
    let ghost full = digit_run(s@, from as int);
    let n: usize = s.len();
    let mut i: usize = from;
    let mut val: u64 = 0;
    loop
        invariant
            from <= i <= n,
            n == s@.len(),
            full == digit_run(s@, from as int),
            all_digits(full),
            forall|j: int| from <= j < i ==> is_digit(#[trigger] s@[j]),
            full =~= s@.subrange(from as int, i as int) + digit_run(s@, i as int),
            val == digits_value(full.take(i - from)),
        ensures
            digit_run(s@, i as int) =~= Seq::empty(),
        decreases n - i,
    {
        proof {
            lemma_digit_run_split(s@, from as int, i as int);
        }
        if i >= n {
            break ;
        }
        let c: char = s[i];
        if !('0' <= c && c <= '9') {
            break ;
        }
        let d: u32 = c as u32 - 48;
        proof {
            let p = full.take(i - from);
            let p1 = full.take(i + 1 - from);
            assert(digit_run(s@, i as int)[0] == s@[i as int]);
            assert(full[i - from] == s@[i as int]);
            assert(p1.drop_last() =~= p);
            assert(digits_value(p1) == digits_value(p) * 10 + digit_val(s@[i as int]));
            lemma_digits_value_prefix_le(full, i + 1 - from);
        }
        let step = val.checked_mul(10);
        let next = match step {
            Some(v) => v.checked_add(d as u64),
            None => None,
        };
        match next {
            Some(v) => {
                val = v;
            },
            None => {
                return None;
            },
        }
        i = i + 1;
    }
    proof {
        assert(digit_run(s@, i as int) =~= Seq::empty());
        assert(full =~= s@.subrange(from as int, i as int));
        assert(full.take(i - from) =~= full);
    }
    if i == from {
        None
    } else {
        Some(val)
    }
}

/// Whether `pat` occurs in `s` at character position `i`.
pub fn str_match_at(s: &str, pat: &str, i: usize, n: usize, m: usize) -> (r: bool)
    requires
        n == s@.len(),
        m == pat@.len(),
        i + m <= n,
    ensures
        r == (s@.subrange(i as int, i + m as int) == pat@),
{
    let mut j: usize = 0;
    let mut ok: bool = true;
    proof {
        assert(s@.subrange(i as int, i as int) =~= pat@.subrange(0, 0));
    }
    while j < m
        invariant
            n == s@.len(),
            m == pat@.len(),
            i + m <= n,
            0 <= j <= m,
            ok == (s@.subrange(i as int, i + j as int) == pat@.subrange(0, j as int)),
        decreases m - j,
    {
        proof {
            let sfull = s@.subrange(i as int, i + j as int + 1);
            let pfull = pat@.subrange(0, j as int + 1);
            assert(sfull[j as int] == s@[i + j]);
            assert(pfull[j as int] == pat@[j as int]);
            assert(sfull.subrange(0, j as int) =~= s@.subrange(i as int, i + j as int));
            assert(pfull.subrange(0, j as int) =~= pat@.subrange(0, j as int));
            if s@.subrange(i as int, i + j as int) == pat@.subrange(0, j as int) && s@[i + j]
                == pat@[j as int] {
                assert(sfull =~= pfull);
            }
        }
        let a: char = s.get_char(i + j);
        let b: char = pat.get_char(j);
        ok = ok && (a == b);
        j = j + 1;
    }
    proof {
        assert(pat@.subrange(0, m as int) =~= pat@);
    }
    ok
}

/// `s` with every occurrence of a non-empty `pat` replaced by `rep`,
/// scanning left to right over non-overlapping occurrences, as
/// `str::replace` does.
pub open spec fn spec_replace(s: Seq<char>, pat: Seq<char>, rep: Seq<char>) -> Seq<char>
    decreases s.len(),
{
    if pat.len() == 0 || s.len() < pat.len() {
        s
    } else if s.take(pat.len() as int) == pat {
        rep + spec_replace(s.skip(pat.len() as int), pat, rep)
    } else {
        seq![s[0]] + spec_replace(s.skip(1), pat, rep)
    }
}

/// Replaces every occurrence of `pat` in `s` by `rep`.
pub fn replace_all(s: &str, pat: &str, rep: &str) -> (r: String)
    requires
        pat@.len() > 0,
    ensures
        r@ == spec_replace(s@, pat@, rep@),
{
    let n: usize = s.unicode_len();
    let m: usize = pat.unicode_len();
    if m > n {
        return s.to_owned();
    }
    let mut out: String = String::new();
    let mut i: usize = 0;
    proof {
        assert(s@.skip(0) =~= s@);
        assert(Seq::<char>::empty() + spec_replace(s@, pat@, rep@) =~= spec_replace(
            s@,
            pat@,
            rep@,
        ));
    }
    while i <= n - m
        invariant
            0 < m <= n,
            n == s@.len(),
            m == pat@.len(),
            0 <= i <= n,
            spec_replace(s@, pat@, rep@) == out@ + spec_replace(s@.skip(i as int), pat@, rep@),
        decreases n - i,
    {
        let tail_matches: bool = str_match_at(s, pat, i, n, m);
        proof {
            let t = s@.skip(i as int);
            assert(t.take(m as int) =~= s@.subrange(i as int, i + m as int));
        }
        if tail_matches {
            out.append(rep);
            proof {
                let t = s@.skip(i as int);
                assert(t.skip(m as int) =~= s@.skip(i + m as int));
            }
            i = i + m;
        } else {
            let piece: &str = s.substring_char(i, i + 1);
            out.append(piece);
            proof {
                let t = s@.skip(i as int);
                assert(t[0] == s@[i as int]);
                assert(t.skip(1) =~= s@.skip(i as int + 1));
                assert(s@.subrange(i as int, i as int + 1) =~= seq![s@[i as int]]);
            }
            i = i + 1;
        }
    }
    let tail: &str = s.substring_char(i, n);
    out.append(tail);
    proof {
        assert(s@.skip(i as int) =~= s@.subrange(i as int, n as int));
    }
    out
}

/// The first `limit` characters of `s`, or all of `s` when it is shorter.
pub fn truncate_chars(s: &str, limit: usize) -> (r: String)
    ensures
        r@ == if s@.len() <= limit {
            s@
        } else {
            s@.take(limit as int)
        },
{
    let n: usize = s.unicode_len();
    if n <= limit {
        s.to_owned()
    } else {
        let cut: &str = s.substring_char(0, limit);
        proof {
            assert(s@.subrange(0, limit as int) =~= s@.take(limit as int));
        }
        cut.to_owned()
    }
}

/// The ASCII character for one decimal digit.
pub open spec fn dec_digit(d: int) -> char {
    if d == 0 {
        '0'
    } else if d == 1 {
        '1'
    } else if d == 2 {
        '2'
    } else if d == 3 {
        '3'
    } else if d == 4 {
        '4'
    } else if d == 5 {
        '5'
    } else if d == 6 {
        '6'
    } else if d == 7 {
        '7'
    } else if d == 8 {
        '8'
    } else {
        '9'
    }
}

/// The decimal rendering of a non-negative number, most significant digit
/// first, with no leading zeroes (a single `'0'` for zero).
pub open spec fn spec_dec(n: int) -> Seq<char>
    decreases n,
{
    if n < 10 {
        seq![dec_digit(n)]
    } else {
        spec_dec(n / 10).push(dec_digit(n % 10))
    }
}

/// Digits of `ds` (least significant first) read back as characters,
/// most significant first.
pub open spec fn rev_digit_chars(ds: Seq<u64>) -> Seq<char> {
    Seq::new(ds.len(), |i: int| dec_digit(ds[ds.len() - 1 - i] as int))
}

/// Renders a number in decimal.
pub fn u64_to_dec(x: u64) -> (r: String)
    ensures
        r@ == spec_dec(x as int),
{
    let mut digits: Vec<u64> = Vec::new();
    let mut v: u64 = x;
    loop
        invariant_except_break
            v == 0 ==> digits@.len() == 0 && x == 0,
        invariant
            forall|k: int| 0 <= k < digits@.len() ==> #[trigger] digits@[k] < 10,
            digits@.len() == 0 ==> v == x,
            v > 0 ==> spec_dec(x as int) =~= spec_dec(v as int) + rev_digit_chars(digits@),
        ensures
            forall|k: int| 0 <= k < digits@.len() ==> #[trigger] digits@[k] < 10,
            digits@.len() > 0,
            spec_dec(x as int) =~= rev_digit_chars(digits@),
        decreases v,
    {
        let d: u64 = v % 10;
        let ghost old_digits = digits@;
        let ghost old_v = v as int;
        digits.push(d);
        v = v / 10;
        proof {
            assert(rev_digit_chars(digits@) =~= seq![dec_digit(d as int)] + rev_digit_chars(
                old_digits,
            ));
            if old_v >= 10 {
                assert(spec_dec(old_v) == spec_dec(old_v / 10).push(dec_digit(old_v % 10)));
                assert(spec_dec(old_v / 10).push(dec_digit(old_v % 10)) =~= spec_dec(old_v / 10)
                    + seq![dec_digit(old_v % 10)]);
            } else {
                assert(spec_dec(old_v) =~= seq![dec_digit(old_v)]);
            }
        }
        if v == 0 {
            break ;
        }
    }
    let mut out: String = String::new();
    let mut k: usize = digits.len();
    while k > 0
        invariant
            k <= digits@.len(),
            forall|j: int| 0 <= j < digits@.len() ==> #[trigger] digits@[j] < 10,
            out@ =~= rev_digit_chars(digits@).take(digits@.len() - k),
        decreases k,
    {
        k = k - 1;
        let d: u64 = digits[k];
        let piece: &str = if d == 0 {
            "0"
        } else if d == 1 {
            "1"
        } else if d == 2 {
            "2"
        } else if d == 3 {
            "3"
        } else if d == 4 {
            "4"
        } else if d == 5 {
            "5"
        } else if d == 6 {
            "6"
        } else if d == 7 {
            "7"
        } else if d == 8 {
            "8"
        } else {
            "9"
        };
        proof {
            reveal_strlit("0");
            reveal_strlit("1");
            reveal_strlit("2");
            reveal_strlit("3");
            reveal_strlit("4");
            reveal_strlit("5");
            reveal_strlit("6");
            reveal_strlit("7");
            reveal_strlit("8");
            reveal_strlit("9");
            assert(piece@ =~= seq![dec_digit(digits@[k as int] as int)]);
            let rc = rev_digit_chars(digits@);
            assert(rc[digits@.len() - 1 - k as int] == dec_digit(digits@[k as int] as int));
            assert(rc.take(digits@.len() - k as int) =~= rc.take(digits@.len() - (k as int + 1)) + seq![
                rc[digits@.len() - 1 - k as int],
            ]);
        }
        out.append(piece);
    }
    proof {
        assert(rev_digit_chars(digits@).take(digits@.len() as int) =~= rev_digit_chars(digits@));
    }
    out
}

} // verus!
