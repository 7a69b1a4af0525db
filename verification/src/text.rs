use vstd::prelude::*;

verus! {

/// The characters for which `char::is_whitespace` holds: the Unicode
/// `White_Space` property.
pub open spec fn is_ws(c: char) -> bool {
    let u = c as u32;
    ||| 0x09 <= u <= 0x0D
    ||| u == 0x20
    ||| u == 0x85
    ||| u == 0xA0
    ||| u == 0x1680
    ||| 0x2000 <= u <= 0x200A
    ||| u == 0x2028
    ||| u == 0x2029
    ||| u == 0x202F
    ||| u == 0x205F
    ||| u == 0x3000
}

pub fn char_is_ws(c: char) -> (b: bool)
    ensures b == is_ws(c),
{
    let u = c as u32;
    (0x09 <= u && u <= 0x0D) || u == 0x20 || u == 0x85 || u == 0xA0 || u == 0x1680
        || (0x2000 <= u && u <= 0x200A) || u == 0x2028 || u == 0x2029 || u == 0x202F
        || u == 0x205F || u == 0x3000
}

/// The characters of `s`, in order.
pub fn str_chars(s: &str) -> (out: Vec<char>)
    ensures out@ == s@,
{
    let mut out: Vec<char> = Vec::new();
    for c in it: s.chars()
        invariant
            out@ == it.seq().take(it.index() as int),
    {
        out.push(c);
    }
    out
}


pub open spec fn is_digit(c: char) -> bool {
    48 <= (c as u32) <= 57
}

pub open spec fn digit_value(c: char) -> int {
    (c as u32) - 48
}

/// The number that the decimal digits `s` spell.
pub open spec fn digits_value(s: Seq<char>) -> int
    decreases s.len(),
{
    if s.len() == 0 {
        0
    } else {
        digits_value(s.drop_last()) * 10 + digit_value(s.last())
    }
}

pub open spec fn all_digits(s: Seq<char>) -> bool {
    forall|i: int| 0 <= i < s.len() ==> is_digit(#[trigger] s[i])
}

/// What `str::parse` gives for an unsigned integer type whose largest value
/// is `max`: an optional leading `+`, then one or more decimal digits whose
/// value is at most `max`.
pub open spec fn spec_parse_unsigned(s: Seq<char>, max: int) -> Option<int> {
    let d = if s.len() > 0 && s[0] == '+' { s.drop_first() } else { s };
    if d.len() == 0 || !all_digits(d) || digits_value(d) > max {
        None
    } else {
        Some(digits_value(d))
    }
}

proof fn lemma_digits_value_nonneg(s: Seq<char>)
    requires all_digits(s),
    ensures digits_value(s) >= 0,
    decreases s.len(),
{
    if s.len() > 0 {
        assert(all_digits(s.drop_last()));
        lemma_digits_value_nonneg(s.drop_last());
        assert(is_digit(s[s.len() - 1]));
    }
}

/// Parses `s[start..end]` as `str::parse` parses an unsigned integer type whose
/// largest value is `max`.
pub fn parse_unsigned(s: &Vec<char>, start: usize, end: usize, max: u64) -> (r: Option<u64>)
    requires start <= end <= s@.len(),
    ensures
        r matches Some(v) ==> spec_parse_unsigned(s@.subrange(start as int, end as int), max as int) == Some(v as int),
        r is None ==> spec_parse_unsigned(s@.subrange(start as int, end as int), max as int) is None,
{
    let ghost sub = s@.subrange(start as int, end as int);
    let mut k = start;
    if k < end && s[k] == '+' {
        k = k + 1;
    }
    let ghost d = s@.subrange(k as int, end as int);
    assert(d =~= (if sub.len() > 0 && sub[0] == '+' { sub.drop_first() } else { sub }));
    if k == end {
        return None;
    }
    let first = k;
    let mut acc: u64 = 0;
    let mut over = false;
    while k < end
        invariant
            first <= k <= end <= s@.len(),
            d == s@.subrange(first as int, end as int),
            sub == s@.subrange(start as int, end as int),
            d == (if sub.len() > 0 && sub[0] == '+' { sub.drop_first() } else { sub }),
            d.len() > 0,
            all_digits(d.take(k - first)),
            !over ==> acc as int == digits_value(d.take(k - first)) && acc <= max,
            over ==> digits_value(d.take(k - first)) > max,
        decreases end - k,
    {
        let c = s[k];
        let u = c as u32;
        if u < 48 || u > 57 {
            assert(d[k - first] == c);
            assert(!is_digit(d[k - first]));
            return None;
        }
        let ghost i = k - first;
        assert(d.take(i + 1).drop_last() =~= d.take(i));
        assert(d.take(i + 1).last() == c);
        assert(all_digits(d.take(i + 1)));
        proof { lemma_digits_value_nonneg(d.take(i)); }
        if !over {
            let next: u128 = (acc as u128) * 10 + ((u - 48) as u128);
            if next > max as u128 {
                over = true;
            } else {
                acc = next as u64;
            }
        }
        k = k + 1;
    }
    assert(d.take(d.len() as int) =~= d);
    if over { None } else { Some(acc) }
}


/// Number of leading characters of `s` whose whitespace-ness is `ws`.
pub open spec fn run_len(s: Seq<char>, ws: bool) -> nat
    decreases s.len(),
{
    if s.len() > 0 && is_ws(s[0]) == ws {
        1 + run_len(s.drop_first(), ws)
    } else {
        0
    }
}

/// Number of trailing whitespace characters of `s`.
pub open spec fn ws_suffix_len(s: Seq<char>) -> nat
    decreases s.len(),
{
    if s.len() > 0 && is_ws(s.last()) {
        1 + ws_suffix_len(s.drop_last())
    } else {
        0
    }
}

/// `s` without leading and trailing whitespace, as `str::trim` gives it.
pub open spec fn spec_trim(s: Seq<char>) -> Seq<char> {
    let t = s.skip(run_len(s, true) as int);
    t.take(t.len() - ws_suffix_len(t))
}

/// The run length of whitespace-ness `ws` at the start of `s` is `i` when the
/// first `i` characters have it and the next one (if any) does not.
pub proof fn lemma_run_len(s: Seq<char>, ws: bool, i: int)
    requires
        0 <= i <= s.len(),
        forall|k: int| 0 <= k < i ==> is_ws(#[trigger] s[k]) == ws,
        i == s.len() || is_ws(s[i]) != ws,
    ensures
        run_len(s, ws) == i,
    decreases i,
{
    if i > 0 {
        let t = s.drop_first();
        assert forall|k: int| 0 <= k < i - 1 implies is_ws(#[trigger] t[k]) == ws by {
            assert(t[k] == s[k + 1]);
        }
        lemma_run_len(t, ws, i - 1);
    }
}

/// Run lengths never pass the end of the sequence.
pub proof fn lemma_run_len_bound(s: Seq<char>, ws: bool)
    ensures
        run_len(s, ws) <= s.len(),
        run_len(s, ws) < s.len() ==> is_ws(s[run_len(s, ws) as int]) != ws,
        forall|k: int| 0 <= k < run_len(s, ws) ==> is_ws(#[trigger] s[k]) == ws,
    decreases s.len(),
{
    if s.len() > 0 && is_ws(s[0]) == ws {
        let t = s.drop_first();
        lemma_run_len_bound(t, ws);
        assert forall|k: int| 0 <= k < run_len(s, ws) implies is_ws(#[trigger] s[k]) == ws by {
            if k > 0 {
                assert(s[k] == t[k - 1]);
            }
        }
    }
}

pub proof fn lemma_ws_suffix_len(s: Seq<char>, i: int)
    requires
        0 <= i <= s.len(),
        forall|k: int| i <= k < s.len() ==> is_ws(#[trigger] s[k]),
        i == 0 || !is_ws(s[i - 1]),
    ensures
        ws_suffix_len(s) == s.len() - i,
    decreases s.len(),
{
    if s.len() > i {
        let t = s.drop_last();
        assert forall|k: int| i <= k < t.len() implies is_ws(#[trigger] t[k]) by {
            assert(t[k] == s[k]);
        }
        assert(is_ws(s.last()));
        lemma_ws_suffix_len(t, i);
    }
}

/// Index of the first character of `s[start..end]` whose whitespace-ness
/// differs from `ws`, or `end`.
pub fn scan_run(s: &Vec<char>, start: usize, end: usize, ws: bool) -> (r: usize)
    requires start <= end <= s@.len(),
    ensures
        start <= r <= end,
        r - start == run_len(s@.subrange(start as int, end as int), ws),
{
    let mut i = start;
    while i < end && char_is_ws(s[i]) == ws
        invariant
            start <= i <= end <= s@.len(),
            forall|k: int| start <= k < i ==> is_ws(#[trigger] s@[k]) == ws,
        decreases end - i,
    {
        i = i + 1;
    }
    let ghost sub = s@.subrange(start as int, end as int);
    proof {
        assert forall|k: int| 0 <= k < i - start implies is_ws(#[trigger] sub[k]) == ws by {
            assert(sub[k] == s@[start + k]);
        }
        if i < end {
            assert(sub[i - start] == s@[i as int]);
        }
        lemma_run_len(sub, ws, i - start);
    }
    i
}

/// The bounds `(lo, hi)` of `s[start..end]` with leading and trailing
/// whitespace removed.
pub fn trim_range(s: &Vec<char>, start: usize, end: usize) -> (r: (usize, usize))
    requires start <= end <= s@.len(),
    ensures
        start <= r.0 <= r.1 <= end,
        s@.subrange(r.0 as int, r.1 as int) == spec_trim(s@.subrange(start as int, end as int)),
{
    let lo = scan_run(s, start, end, true);
    let mut hi = end;
    while hi > lo && char_is_ws(s[hi - 1])
        invariant
            lo <= hi <= end <= s@.len(),
            forall|k: int| hi <= k < end ==> is_ws(#[trigger] s@[k]),
        decreases hi,
    {
        hi = hi - 1;
    }
    let ghost sub = s@.subrange(start as int, end as int);
    let ghost t = sub.skip(run_len(sub, true) as int);
    proof {
        assert(t =~= s@.subrange(lo as int, end as int));
        assert forall|k: int| hi - lo <= k < t.len() implies is_ws(#[trigger] t[k]) by {
            assert(t[k] == s@[lo + k]);
        }
        if hi > lo {
            assert(t[hi - lo - 1] == s@[hi - 1]);
        }
        lemma_ws_suffix_len(t, hi - lo);
        assert(t.take(t.len() - ws_suffix_len(t)) =~= s@.subrange(lo as int, hi as int));
    }
    (lo, hi)
}

/// Index of the first `c` in `s`, or its length.
pub open spec fn find_char(s: Seq<char>, c: char) -> nat
    decreases s.len(),
{
    if s.len() == 0 {
        0
    } else if s[0] == c {
        0
    } else {
        1 + find_char(s.drop_first(), c)
    }
}

pub proof fn lemma_find_char(s: Seq<char>, c: char, i: int)
    requires
        0 <= i <= s.len(),
        forall|k: int| 0 <= k < i ==> #[trigger] s[k] != c,
        i == s.len() || s[i] == c,
    ensures
        find_char(s, c) == i,
    decreases i,
{
    if i > 0 {
        let t = s.drop_first();
        assert forall|k: int| 0 <= k < i - 1 implies #[trigger] t[k] != c by {
            assert(t[k] == s[k + 1]);
        }
        lemma_find_char(t, c, i - 1);
    }
}

/// Index of the first `c` in `s[start..end]`, or `end`.
pub fn find_in(s: &Vec<char>, start: usize, end: usize, c: char) -> (r: usize)
    requires start <= end <= s@.len(),
    ensures
        start <= r <= end,
        r - start == find_char(s@.subrange(start as int, end as int), c),
{
    let mut i = start;
    while i < end && s[i] != c
        invariant
            start <= i <= end <= s@.len(),
            forall|k: int| start <= k < i ==> #[trigger] s@[k] != c,
        decreases end - i,
    {
        i = i + 1;
    }
    let ghost sub = s@.subrange(start as int, end as int);
    proof {
        assert forall|k: int| 0 <= k < i - start implies #[trigger] sub[k] != c by {
            assert(sub[k] == s@[start + k]);
        }
        if i < end {
            assert(sub[i - start] == s@[i as int]);
        }
        lemma_find_char(sub, c, i - start);
    }
    i
}

/// Whether `s[start..end]` is exactly `w`.
pub fn range_eq(s: &Vec<char>, start: usize, end: usize, w: &[char]) -> (b: bool)
    requires start <= end <= s@.len(),
    ensures b == (s@.subrange(start as int, end as int) == w@),
{
    if end - start != w.len() {
        return false;
    }
    let mut i: usize = 0;
    while i < w.len()
        invariant
            0 <= i <= w@.len(),
            end - start == w@.len(),
            start <= end <= s@.len(),
            forall|j: int| 0 <= j < i ==> s@[start + j] == w@[j],
        decreases w.len() - i,
    {
        if s[start + i] != w[i] {
            assert(s@.subrange(start as int, end as int)[i as int] != w@[i as int]);
            return false;
        }
        i = i + 1;
    }
    assert(s@.subrange(start as int, end as int) =~= w@);
    true
}

} // verus!
