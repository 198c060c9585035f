use vstd::prelude::*;

verus! {

/// Unicode White_Space, as `char::is_whitespace` and `str::split_whitespace` use it.
pub open spec fn is_ws(c: char) -> bool {
    let x = c as u32;
    (0x09 <= x <= 0x0d) || x == 0x20 || x == 0x85 || x == 0xa0 || x == 0x1680 || (0x2000 <= x
        <= 0x200a) || x == 0x2028 || x == 0x2029 || x == 0x202f || x == 0x205f || x == 0x3000
}

pub fn is_whitespace(c: char) -> (r: bool)
    ensures
        r == is_ws(c),
{
    let x = c as u32;
    (0x09 <= x && x <= 0x0d) || x == 0x20 || x == 0x85 || x == 0xa0 || x == 0x1680 || (0x2000 <= x
        && x <= 0x200a) || x == 0x2028 || x == 0x2029 || x == 0x202f || x == 0x205f || x == 0x3000
}

/// The whitespace-separated tokens of `s`, in order.
pub open spec fn tokens(s: Seq<char>) -> Seq<Seq<char>>
    decreases s.len(),
{
    if s.len() == 0 {
        Seq::empty()
    } else {
        let t = tokens(s.drop_last());
        let c = s.last();
        if is_ws(c) {
            t
        } else if s.len() > 1 && !is_ws(s[s.len() - 2]) {
            t.update(t.len() - 1, t.last().push(c))
        } else {
            t.push(seq![c])
        }
    }
}

/// The tokens joined with single spaces.
pub open spec fn join(ts: Seq<Seq<char>>) -> Seq<char>
    decreases ts.len(),
{
    if ts.len() == 0 {
        Seq::empty()
    } else if ts.len() == 1 {
        ts[0]
    } else {
        join(ts.drop_last()) + " "@ + ts.last()
    }
}

/// The comma-separated pieces of `s`, empty pieces included (always at least one).
pub open spec fn pieces(s: Seq<char>) -> Seq<Seq<char>>
    decreases s.len(),
{
    if s.len() == 0 {
        seq![Seq::empty()]
    } else {
        let p = pieces(s.drop_last());
        if s.last() == ',' {
            p.push(Seq::empty())
        } else {
            p.update(p.len() - 1, p.last().push(s.last()))
        }
    }
}

pub proof fn lemma_pieces_nonempty(s: Seq<char>)
    ensures
        pieces(s).len() >= 1,
    decreases s.len(),
{
    if s.len() > 0 {
        lemma_pieces_nonempty(s.drop_last());
    }
}

pub open spec fn is_digit(c: char) -> bool {
    '0' <= c <= '9'
}

pub open spec fn all_digits(s: Seq<char>) -> bool {
    forall|i: int| 0 <= i < s.len() ==> is_digit(#[trigger] s[i])
}

/// The value of a string of decimal digits.
pub open spec fn digits_value(s: Seq<char>) -> nat
    decreases s.len(),
{
    if s.len() == 0 {
        0
    } else {
        digits_value(s.drop_last()) * 10 + (s.last() as nat - '0' as nat) as nat
    }
}

/// An unsigned decimal integer as std's `from_str` reads one: an optional
/// `+`, then one or more ASCII digits, and at most `max`.
pub open spec fn unsigned_of(s: Seq<char>, max: nat) -> Option<nat> {
    let body = if s.len() > 0 && s[0] == '+' {
        s.drop_first()
    } else {
        s
    };
    if body.len() > 0 && all_digits(body) && digits_value(body) <= max {
        Some(digits_value(body))
    } else {
        None
    }
}

proof fn lemma_digits_prefix_le(s: Seq<char>, k: int)
    requires
        0 <= k <= s.len(),
        all_digits(s),
    ensures
        digits_value(s.take(k)) <= digits_value(s),
    decreases s.len(),
{
    if k < s.len() {
        assert(s.drop_last().take(k) =~= s.take(k));
        lemma_digits_prefix_le(s.drop_last(), k);
    } else {
        assert(s.take(k) =~= s);
    }
}

/// Reads `s[from..to]` as an unsigned decimal integer no larger than `max`.
pub fn parse_unsigned(s: &str, from: usize, to: usize, max: u64) -> (r: Option<u64>)
    requires
        from <= to <= s@.len(),
    ensures
        r matches Some(v) ==> unsigned_of(s@.subrange(from as int, to as int), max as nat)
            == Some(v as nat),
        r is None ==> unsigned_of(s@.subrange(from as int, to as int), max as nat) is None,
{
    let ghost whole = s@.subrange(from as int, to as int);
    let mut start = from;
    if from < to && s.get_char(from) == '+' {
        start = from + 1;
    }
    let ghost body = s@.subrange(start as int, to as int);
    assert(body =~= (if whole.len() > 0 && whole[0] == '+' {
        whole.drop_first()
    } else {
        whole
    }));
    assert(unsigned_of(whole, max as nat) == (if body.len() > 0 && all_digits(body)
        && digits_value(body) <= max {
        Some(digits_value(body))
    } else {
        None
    }));
    if start == to {
        return None;
    }
    let mut acc: u64 = 0;
    let mut i = start;
    while i < to
        invariant
            start <= i <= to <= s@.len(),
            whole == s@.subrange(from as int, to as int),
            unsigned_of(whole, max as nat) == (if body.len() > 0 && all_digits(body)
                && digits_value(body) <= max {
                Some(digits_value(body))
            } else {
                None
            }),
            body == s@.subrange(start as int, to as int),
            all_digits(body.take(i - start)),
            acc as nat == digits_value(body.take(i - start)),
            acc <= max,
        decreases to - i,
    {
        let c = s.get_char(i);
        let ghost k = i - start;
        assert(body.take(k + 1).drop_last() =~= body.take(k));
        assert(body[k] == c);
        if !('0' <= c && c <= '9') {
            assert(!all_digits(body));
            return None;
        }
        let d = (c as u32 - '0' as u32) as u64;
        assert((acc as u128) * 10 <= (u64::MAX as u128) * 10) by (nonlinear_arith)
            requires
                acc <= u64::MAX,
        ;
        let next: u128 = acc as u128 * 10 + d as u128;
        if next > max as u128 {
            proof {
                assert(body.take(k + 1).last() == c);
                assert(digits_value(body.take(k + 1)) > max);
                if all_digits(body) {
                    lemma_digits_prefix_le(body, k + 1);
                }
            }
            return None;
        }
        acc = next as u64;
        i = i + 1;
        assert(all_digits(body.take(i - start))) by {
            assert forall|j: int| 0 <= j < (i - start) implies is_digit(
                #[trigger] body.take(i - start)[j],
            ) by {
                if j < k {
                    assert(body.take(k)[j] == body.take(i - start)[j]);
                }
            }
        }
    }
    assert(body.take(i - start) =~= body);
    Some(acc)
}

pub(crate) proof fn lemma_pieces_prefix(s: Seq<char>, i: int)
    requires
        0 <= i <= s.len(),
    ensures
        pieces(s.take(i)).len() <= pieces(s).len(),
        forall|k: int|
            0 <= k < pieces(s.take(i)).len() - 1 ==> #[trigger] pieces(s)[k] == pieces(
                s.take(i),
            )[k],
    decreases s.len(),
{
    lemma_pieces_nonempty(s);
    if i < s.len() {
        assert(s.drop_last().take(i) =~= s.take(i));
        lemma_pieces_prefix(s.drop_last(), i);
        lemma_pieces_nonempty(s.drop_last());
    } else {
        assert(s.take(i) =~= s);
    }
}

/// Bounds `(start, end)` of each whitespace-separated token of `s`.
pub fn token_bounds(s: &str) -> (r: Vec<(usize, usize)>)
    ensures
        r@.len() == tokens(s@).len(),
        forall|k: int| #![trigger r@[k]] 0 <= k < r@.len() ==> r@[k].0 < r@[k].1 && r@[k].1 <= s@.len(),
        forall|k: int|
            0 <= k < r@.len() ==> #[trigger] tokens(s@)[k] == s@.subrange(
                r@[k].0 as int,
                r@[k].1 as int,
            ),
{
    let n = s.unicode_len();
    let mut r: Vec<(usize, usize)> = Vec::new();
    let mut in_token = false;
    let mut i: usize = 0;
    while i < n
        invariant
            n == s@.len(),
            i <= n,
            r@.len() == tokens(s@.take(i as int)).len(),
            forall|k: int| #![trigger r@[k]] 0 <= k < r@.len() ==> r@[k].0 < r@[k].1 && r@[k].1 <= i,
            forall|k: int|
                0 <= k < r@.len() ==> #[trigger] tokens(s@.take(i as int))[k] == s@.subrange(
                    r@[k].0 as int,
                    r@[k].1 as int,
                ),
            in_token == (i > 0 && !is_ws(s@[i - 1])),
            in_token ==> r@.len() > 0 && r@[r@.len() - 1].1 == i,
        decreases n - i,
    {
        let c = s.get_char(i);
        let ghost pre = s@.take(i as int);
        let ghost cur = s@.take(i + 1);
        assert(cur.drop_last() =~= pre);
        assert(cur.last() == c);
        if i > 0 {
            assert(cur[cur.len() - 2] == s@[i - 1]);
        }
        if is_whitespace(c) {
            in_token = false;
        } else if in_token {
            let last = r.len() - 1;
            let a = r[last].0;
            let ghost old_r = r@;
            assert(old_r[last as int].0 < old_r[last as int].1);
            r.set(last, (a, i + 1));
            assert forall|k: int| #![trigger r@[k]] 0 <= k < r@.len() implies r@[k].0 < r@[k].1 && r@[k].1 <= i + 1 by {
                if k != last {
                    assert(r@[k] == old_r[k]);
                }
            }
            assert(s@.subrange(a as int, i + 1) =~= s@.subrange(a as int, i as int).push(c));
        } else {
            let ghost old_r = r@;
            r.push((i, i + 1));
            in_token = true;
            assert forall|k: int| #![trigger r@[k]] 0 <= k < r@.len() implies r@[k].0 < r@[k].1 && r@[k].1 <= i + 1 by {
                if k < old_r.len() {
                    assert(r@[k] == old_r[k]);
                }
            }
            assert(s@.subrange(i as int, i + 1) =~= seq![c]);
        }
        i = i + 1;
    }
    assert(s@.take(n as int) =~= s@);
    r
}

} // verus!
