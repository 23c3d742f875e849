use vstd::prelude::*;
use vstd::string::StringExecFns;

verus! {

/// Join a base directory and a relative name with a single `/`
/// separator.  For such names this is what the platform join builds;
/// rooted or drive-prefixed names, which the platform join would
/// substitute for the base outright, are excluded, and a caller on
/// another separator convention resolves that itself.
pub fn to_path(base: &str, p: &str) -> (out: String)
    requires
        p@.len() >= 1,
        p@[0] != '/',
        p@[0] != '\\',
        p@.len() >= 2 ==> p@[1] != ':',
    ensures
        out@ == base@ + "/"@ + p@,
{
    let mut s = String::new();
    s.append(base);
    s.append("/");
    s.append(p);
    s
}

/// Whether every byte is an ASCII decimal digit.
pub open spec fn all_digits(s: Seq<u8>) -> bool {
    forall|i: int| 0 <= i < s.len() ==> 48 <= #[trigger] s[i] <= 57
}

/// The number a run of decimal digit bytes denotes, most significant
/// digit first.
pub open spec fn digits_val(s: Seq<u8>) -> int
    decreases s.len(),
{
    if s.len() == 0 {
        0
    } else {
        digits_val(s.drop_last()) * 10 + (s.last() - 48)
    }
}

/// The canonical decimal digit bytes of a non-negative number.
pub open spec fn dec_digits(n: int) -> Seq<u8>
    decreases n,
{
    if n < 10 {
        seq![(48 + if n >= 0 { n } else { 0 }) as u8]
    } else {
        dec_digits(n / 10).push((48 + n % 10) as u8)
    }
}

/// The signed value a byte run denotes: a leading minus negates the
/// digits after it.
pub open spec fn int_val(s: Seq<u8>) -> int {
    if s.len() >= 1 && s[0] == 45 {
        -digits_val(s.subrange(1, s.len() as int))
    } else {
        digits_val(s)
    }
}

/// Whether a byte run is a well-formed signed decimal: an optional
/// leading minus, then at least one digit and nothing else.
pub open spec fn int_format_ok(s: Seq<u8>) -> bool {
    if s.len() >= 1 && s[0] == 45 {
        s.len() >= 2 && all_digits(s.subrange(1, s.len() as int))
    } else {
        s.len() >= 1 && all_digits(s)
    }
}

/// Whether a byte is ASCII whitespace.
pub open spec fn is_space(b: u8) -> bool {
    b == 32 || (9 <= b <= 13)
}

/// The byte run with ASCII whitespace removed from both ends.
pub open spec fn trimmed(s: Seq<u8>) -> Seq<u8>
    decreases s.len(),
{
    if s.len() > 0 && is_space(s[0]) {
        trimmed(s.subrange(1, s.len() as int))
    } else if s.len() > 0 && is_space(s[s.len() - 1]) {
        trimmed(s.subrange(0, s.len() - 1))
    } else {
        s
    }
}

/// The position of the first newline byte at or after `i`, or -1.
pub open spec fn find_nl(s: Seq<u8>, i: int) -> int
    decreases s.len() - i,
{
    if i < 0 || i >= s.len() {
        -1
    } else if s[i] == 10 {
        i
    } else {
        find_nl(s, i + 1)
    }
}

proof fn lemma_digits_val_nonneg(s: Seq<u8>)
    requires
        all_digits(s),
    ensures
        digits_val(s) >= 0,
    decreases s.len(),
{
    if s.len() > 0 {
        assert(all_digits(s.drop_last()));
        lemma_digits_val_nonneg(s.drop_last());
    }
}

proof fn lemma_digits_take_step(s: Seq<u8>, i: int)
    requires
        0 <= i < s.len(),
    ensures
        digits_val(s.take(i + 1)) == digits_val(s.take(i)) * 10 + (s[i] - 48),
{
    assert(s.take(i + 1).drop_last() =~= s.take(i));
    assert(s.take(i + 1).last() == s[i]);
}

/// Every prefix of a digit run denotes at most the whole run's value.
proof fn lemma_digits_prefix_le(s: Seq<u8>, i: int)
    requires
        all_digits(s),
        0 <= i <= s.len(),
    ensures
        digits_val(s.take(i)) <= digits_val(s),
    decreases s.len() - i,
{
    if i == s.len() {
        assert(s.take(i) =~= s);
    } else {
        lemma_digits_take_step(s, i);
        assert(all_digits(s.take(i)));
        lemma_digits_val_nonneg(s.take(i));
        lemma_digits_prefix_le(s, i + 1);
    }
}

/// Parse the bytes of `v` in `[from, to)` as an unsigned decimal.
/// Returns the denoted value exactly when the segment is one or more
/// digits whose value fits; fails otherwise.
pub fn parse_u64_range(v: &Vec<u8>, from: usize, to: usize) -> (out: Option<u64>)
    requires
        from <= to <= v@.len(),
    ensures
        match out {
            Some(val) => {
                let seg = v@.subrange(from as int, to as int);
                seg.len() >= 1 && all_digits(seg) && digits_val(seg) == val
            },
            None => {
                let seg = v@.subrange(from as int, to as int);
                seg.len() == 0 || !all_digits(seg) || digits_val(seg) > u64::MAX
            },
        },
{
    let ghost seg = v@.subrange(from as int, to as int);
    if from == to {
        return None;
    }
    let mut acc: u64 = 0;
    let mut i: usize = from;
    while i < to
        invariant
            from <= i <= to <= v@.len(),
            seg == v@.subrange(from as int, to as int),
            all_digits(seg.take(i - from)),
            acc as int == digits_val(seg.take(i - from)),
        decreases to - i,
    {
        let b = v[i];
        proof {
            assert(seg[i - from] == v@[i as int]);
        }
        if b < 48 || b > 57 {
            proof {
                assert(!all_digits(seg));
            }
            return None;
        }
        let d = (b - 48) as u64;
        if acc > (u64::MAX - d) / 10 {
            proof {
                lemma_digits_take_step(seg, i - from);
                vstd::arithmetic::div_mod::lemma_fundamental_div_mod(
                    u64::MAX - d as int,
                    10,
                );
                vstd::arithmetic::div_mod::lemma_mod_bound(u64::MAX - d as int, 10);
                assert(digits_val(seg.take(i - from + 1)) > u64::MAX);
                if all_digits(seg) {
                    lemma_digits_prefix_le(seg, i - from + 1);
                }
            }
            return None;
        }
        proof {
            lemma_digits_take_step(seg, i - from);
            vstd::arithmetic::div_mod::lemma_fundamental_div_mod(u64::MAX - d as int, 10);
            vstd::arithmetic::div_mod::lemma_mod_bound(u64::MAX - d as int, 10);
        }
        acc = acc * 10 + d;
        i = i + 1;
    }
    proof {
        assert(seg.take(to - from) =~= seg);
    }
    Some(acc)
}

/// Parse the bytes of `v` in `[from, to)` as a signed decimal.  Returns
/// the denoted value exactly when the segment is a well-formed signed
/// decimal whose value fits an `i64`; fails otherwise.
pub fn parse_i64_range(v: &Vec<u8>, from: usize, to: usize) -> (out: Option<i64>)
    requires
        from <= to <= v@.len(),
    ensures
        match out {
            Some(val) => {
                let seg = v@.subrange(from as int, to as int);
                int_format_ok(seg) && int_val(seg) == val
            },
            None => {
                let seg = v@.subrange(from as int, to as int);
                !int_format_ok(seg) || int_val(seg) < i64::MIN || int_val(seg) > i64::MAX
            },
        },
{
    let ghost seg = v@.subrange(from as int, to as int);
    if from < to && v[from] == 45 {
        proof {
            assert(seg[0] == 45);
            assert(v@.subrange(from as int + 1, to as int) =~= seg.subrange(1, seg.len() as int));
        }
        match parse_u64_range(v, from + 1, to) {
            Some(m) => {
                proof {
                    lemma_digits_val_nonneg(seg.subrange(1, seg.len() as int));
                }
                if m > 9223372036854775808u64 {
                    None
                } else if m == 9223372036854775808u64 {
                    Some(i64::MIN)
                } else {
                    Some(-(m as i64))
                }
            },
            None => None,
        }
    } else {
        proof {
            assert(seg.len() >= 1 ==> seg[0] == v@[from as int]);
        }
        match parse_u64_range(v, from, to) {
            Some(m) => {
                if m > i64::MAX as u64 {
                    None
                } else {
                    Some(m as i64)
                }
            },
            None => {
                proof {
                    if int_format_ok(seg) {
                        lemma_digits_val_nonneg(seg);
                    }
                }
                None
            },
        }
    }
}

fn is_space_byte(b: u8) -> (r: bool)
    ensures
        r == is_space(b),
{
    b == 32 || (b >= 9 && b <= 13)
}

/// A run whose bytes before `lo` and from `hi` on are whitespace, and
/// which at `lo` and `hi - 1` (if any span remains) is not, trims to
/// exactly the span `[lo, hi)`.
proof fn lemma_trimmed_of(s: Seq<u8>, lo: int, hi: int)
    requires
        0 <= lo <= hi <= s.len(),
        forall|i: int| 0 <= i < lo ==> is_space(#[trigger] s[i]),
        forall|i: int| hi <= i < s.len() ==> is_space(#[trigger] s[i]),
        lo == hi || (!is_space(s[lo]) && !is_space(s[hi - 1])),
    ensures
        trimmed(s) == s.subrange(lo, hi),
    decreases s.len(),
{
    if s.len() == 0 {
        assert(trimmed(s) =~= s.subrange(lo, hi));
    } else if is_space(s[0]) {
        let t = s.subrange(1, s.len() as int);
        if lo == hi {
            assert forall|i: int| 0 <= i < t.len() implies is_space(#[trigger] t[i]) by {
                assert(t[i] == s[i + 1]);
            }
            lemma_trimmed_of(t, 0, 0);
            assert(s.subrange(lo, hi) =~= t.subrange(0, 0));
        } else {
            assert(lo >= 1);
            assert forall|i: int| 0 <= i < lo - 1 implies is_space(#[trigger] t[i]) by {
                assert(t[i] == s[i + 1]);
            }
            assert forall|i: int| hi - 1 <= i < t.len() implies is_space(#[trigger] t[i]) by {
                assert(t[i] == s[i + 1]);
            }
            lemma_trimmed_of(t, lo - 1, hi - 1);
            assert(t.subrange(lo - 1, hi - 1) =~= s.subrange(lo, hi));
        }
    } else if is_space(s[s.len() - 1]) {
        assert(lo < hi);
        assert(hi <= s.len() - 1);
        let t = s.subrange(0, s.len() - 1);
        assert forall|i: int| hi <= i < t.len() implies is_space(#[trigger] t[i]) by {
            assert(t[i] == s[i]);
        }
        assert forall|i: int| 0 <= i < lo implies is_space(#[trigger] t[i]) by {
            assert(t[i] == s[i]);
        }
        lemma_trimmed_of(t, lo, hi);
        assert(t.subrange(lo, hi) =~= s.subrange(lo, hi));
    } else {
        assert(lo == 0 && hi == s.len());
        assert(s.subrange(0, s.len() as int) =~= s);
    }
}

/// Parse the persisted pair "timestamp, newline, rotation index",
/// ignoring ASCII whitespace around the pair.  Succeeds exactly when,
/// after trimming, the bytes up to the first newline are a signed
/// decimal fitting an `i64` and the bytes after it are an unsigned
/// decimal fitting a `u64`.
pub fn parse_state(v: &Vec<u8>) -> (out: Option<(i64, u64)>)
    ensures
        ({
            let s = trimmed(v@);
            let k = find_nl(s, 0);
            match out {
                Some(p) => k >= 0 && int_format_ok(s.subrange(0, k)) && p.0 == int_val(
                    s.subrange(0, k),
                ) && all_digits(s.subrange(k + 1, s.len() as int)) && s.len() - (k + 1) >= 1
                    && p.1 == digits_val(s.subrange(k + 1, s.len() as int)),
                None => k < 0 || !int_format_ok(s.subrange(0, k)) || int_val(s.subrange(0, k))
                    < i64::MIN || int_val(s.subrange(0, k)) > i64::MAX || s.len() - (k + 1) == 0
                    || !all_digits(s.subrange(k + 1, s.len() as int)) || digits_val(
                    s.subrange(k + 1, s.len() as int),
                ) > u64::MAX,
            }
        }),
{
    let n = v.len();
    let mut lo: usize = 0;
    while lo < n && is_space_byte(v[lo])
        invariant
            0 <= lo <= n,
            n == v@.len(),
            forall|j: int| 0 <= j < lo ==> is_space(#[trigger] v@[j]),
        decreases n - lo,
    {
        lo = lo + 1;
    }
    let mut hi: usize = n;
    while hi > lo && is_space_byte(v[hi - 1])
        invariant
            lo <= hi <= n,
            n == v@.len(),
            forall|j: int| hi <= j < n ==> is_space(#[trigger] v@[j]),
        decreases hi,
    {
        hi = hi - 1;
    }
    proof {
        lemma_trimmed_of(v@, lo as int, hi as int);
    }
    let ghost t = trimmed(v@);
    let mut i: usize = lo;
    while i < hi && v[i] != 10
        invariant
            lo <= i <= hi <= n,
            n == v@.len(),
            t == v@.subrange(lo as int, hi as int),
            find_nl(t, 0) == find_nl(t, i - lo),
        decreases hi - i,
    {
        proof {
            assert(t[i - lo] == v@[i as int]);
        }
        i = i + 1;
    }
    if i == hi {
        proof {
            assert(find_nl(t, i - lo) == -1);
        }
        return None;
    }
    proof {
        assert(t[i - lo] == v@[i as int]);
        assert(find_nl(t, 0) == i - lo);
        assert(v@.subrange(lo as int, i as int) =~= t.subrange(0, i - lo));
        assert(v@.subrange(i as int + 1, hi as int) =~= t.subrange(i - lo + 1, t.len() as int));
    }
    let ts = match parse_i64_range(v, lo, i) {
        Some(x) => x,
        None => {
            return None;
        },
    };
    let idx = match parse_u64_range(v, i + 1, hi) {
        Some(x) => x,
        None => {
            return None;
        },
    };
    Some((ts, idx))
}

/// The digits of a non-negative number are digits, denote it exactly,
/// and hold no newline byte.
pub proof fn lemma_dec_digits_val(n: int)
    requires
        n >= 0,
    ensures
        all_digits(dec_digits(n)),
        digits_val(dec_digits(n)) == n,
        dec_digits(n).len() >= 1,
    decreases n,
{
    if n < 10 {
        assert(dec_digits(n) =~= seq![(48 + n) as u8]);
        assert(dec_digits(n).drop_last() =~= Seq::<u8>::empty());
        assert(dec_digits(n).last() == (48 + n) as u8);
        assert(digits_val(Seq::<u8>::empty()) == 0);
        assert(digits_val(dec_digits(n)) == 0 * 10 + ((48 + n) as u8 - 48));
    } else {
        lemma_dec_digits_val(n / 10);
        vstd::arithmetic::div_mod::lemma_fundamental_div_mod(n, 10);
        vstd::arithmetic::div_mod::lemma_mod_bound(n, 10);
        assert(dec_digits(n).drop_last() =~= dec_digits(n / 10));
        assert(dec_digits(n).last() == (48 + n % 10) as u8);
        assert(digits_val(dec_digits(n)) == (n / 10) * 10 + ((48 + n % 10) as u8 - 48));
    }
}

/// Append the decimal digits of `n`.
fn fmt_u64_into(n: u64, out: &mut Vec<u8>)
    ensures
        final(out)@ == old(out)@ + dec_digits(n as int),
    decreases n,
{
    proof {
        vstd::arithmetic::div_mod::lemma_mod_bound(n as int, 10);
    }
    if n >= 10 {
        fmt_u64_into(n / 10, out);
        out.push(48 + (n % 10) as u8);
        proof {
            assert(out@ =~= old(out)@ + dec_digits(n as int));
        }
    } else {
        out.push(48 + n as u8);
        proof {
            assert(out@ =~= old(out)@ + dec_digits(n as int));
        }
    }
}

/// The persisted pair as bytes: the timestamp, a newline, the index.
pub open spec fn state_bytes(ts: int, idx: int) -> Seq<u8> {
    (if ts < 0 {
        seq![45u8] + dec_digits(-ts)
    } else {
        dec_digits(ts)
    }) + seq![10u8] + dec_digits(idx)
}

/// Render the persisted pair "timestamp, newline, rotation index".
pub fn format_state(ts: i64, idx: u64) -> (out: Vec<u8>)
    ensures
        out@ == state_bytes(ts as int, idx as int),
{
    let mut out: Vec<u8> = Vec::new();
    if ts < 0 {
        out.push(45);
        let m: u64 = ((-(ts + 1)) as u64) + 1;
        fmt_u64_into(m, &mut out);
        proof {
            assert(out@ =~= (seq![45u8] + dec_digits(-(ts as int))));
        }
    } else {
        fmt_u64_into(ts as u64, &mut out);
    }
    out.push(10);
    fmt_u64_into(idx, &mut out);
    proof {
        assert(out@ =~= state_bytes(ts as int, idx as int));
    }
    out
}

proof fn lemma_find_nl_at(s: Seq<u8>, k: int, i: int)
    requires
        0 <= i <= k < s.len(),
        s[k] == 10,
        forall|j: int| i <= j < k ==> s[j] != 10,
    ensures
        find_nl(s, i) == k,
    decreases k - i,
{
    if i < k {
        lemma_find_nl_at(s, k, i + 1);
    }
}

/// Round trip: the bytes `format_state` writes hold no surrounding
/// whitespace and parse back to the same pair.  Together with
/// `parse_state`'s contract this says
/// `parse_state(format_state(ts, idx))` returns exactly `Some((ts, idx))`.
pub proof fn lemma_state_round_trip(ts: int, idx: int)
    requires
        i64::MIN <= ts <= i64::MAX,
        0 <= idx <= u64::MAX,
    ensures
        trimmed(state_bytes(ts, idx)) == state_bytes(ts, idx),
        ({
            let s = state_bytes(ts, idx);
            let k = find_nl(s, 0);
            &&& k >= 0
            &&& int_format_ok(s.subrange(0, k))
            &&& int_val(s.subrange(0, k)) == ts
            &&& s.len() - (k + 1) >= 1
            &&& all_digits(s.subrange(k + 1, s.len() as int))
            &&& digits_val(s.subrange(k + 1, s.len() as int)) == idx
        }),
{
    let first = if ts < 0 {
        seq![45u8] + dec_digits(-ts)
    } else {
        dec_digits(ts)
    };
    let second = dec_digits(idx);
    let s = state_bytes(ts, idx);
    if ts < 0 {
        lemma_dec_digits_val(-ts);
    } else {
        lemma_dec_digits_val(ts);
    }
    lemma_dec_digits_val(idx);
    let k = first.len() as int;
    assert(s == first + seq![10u8] + second);
    assert(s.len() == first.len() + 1 + second.len());
    assert(s[k] == 10);
    assert forall|j: int| 0 <= j < k implies s[j] != 10 by {
        assert(s[j] == first[j]);
        if ts < 0 {
            if j == 0 {
                assert(first[0] == 45);
            } else {
                assert(first[j] == dec_digits(-ts)[j - 1]);
                assert(48 <= dec_digits(-ts)[j - 1] <= 57);
            }
        } else {
            assert(48 <= first[j] <= 57);
        }
    }
    lemma_find_nl_at(s, k, 0);
    assert(s.subrange(0, k) =~= first);
    assert(s.subrange(k + 1, s.len() as int) =~= second);
    if ts < 0 {
        assert(first.subrange(1, first.len() as int) =~= dec_digits(-ts));
    }
    assert(s[0] == first[0] && !is_space(s[0]));
    assert(s[s.len() - 1] == second[second.len() - 1]);
    assert(48 <= s[s.len() - 1] <= 57 && !is_space(s[s.len() - 1]));
    assert(trimmed(s) == s);
}

} // verus!
