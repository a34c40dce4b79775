//! IPv4 addresses and CIDR blocks as integers.
use crate::cmd::{all_digits, digits_up_to, digits_value, is_digit, lemma_digits_value_push};
use vstd::prelude::*;
use vstd::string::StrSliceExecFns;

verus! {

/// The pieces of `s` between the occurrences of `c`, as `str::split` gives them.
pub open spec fn split_on(s: Seq<char>, c: char) -> Seq<Seq<char>>
    decreases s.len(),
{
    if s.len() == 0 {
        seq![Seq::<char>::empty()]
    } else {
        let t = split_on(s.drop_last(), c);
        if s.last() == c {
            t.push(Seq::<char>::empty())
        } else {
            t.update(t.len() - 1, t.last().push(s.last()))
        }
    }
}

/// A decimal octet as `Ipv4Addr`'s parser accepts it: one to three digits,
/// no leading zero, at most 255.
pub open spec fn octet_ok(s: Seq<char>) -> bool {
    &&& 1 <= s.len() <= 3
    &&& all_digits(s)
    &&& (s.len() == 1 || s[0] != '0')
    &&& digits_value(s) <= 255
}

/// The address that dotted-quad text denotes.
pub open spec fn ipv4_of(s: Seq<char>) -> Option<u32> {
    let p = split_on(s, '.');
    if p.len() == 4 && octet_ok(p[0]) && octet_ok(p[1]) && octet_ok(p[2]) && octet_ok(p[3]) {
        Some(
            (digits_value(p[0]) * 0x100_0000 + digits_value(p[1]) * 0x1_0000 + digits_value(p[2])
                * 0x100 + digits_value(p[3])) as u32,
        )
    } else {
        None
    }
}

/// The position of the first `c` in `s`, if any.
pub open spec fn first_index(s: Seq<char>, c: char) -> Option<int> {
    if exists|i: int| 0 <= i < s.len() && s[i] == c {
        Some(choose|i: int| 0 <= i < s.len() && s[i] == c && forall|j: int| 0 <= j < i ==> s[j] != c)
    } else {
        None
    }
}

/// The address and prefix length of `a.b.c.d/p`, with `p` at most 32.
pub open spec fn cidr_of(s: Seq<char>) -> Option<(u32, u32)> {
    match first_index(s, '/') {
        Some(p) => {
            let ip = s.subrange(0, p);
            let len = s.subrange(p + 1, s.len() as int);
            if ipv4_of(ip) is Some && len.len() > 0 && all_digits(len) && digits_value(len) <= 32 {
                Some((ipv4_of(ip)->0, digits_value(len) as u32))
            } else {
                None
            }
        },
        None => None,
    }
}

/// The first address of the block `ip/prefix`.
pub open spec fn network_base(ip: u32, prefix: u32) -> int {
    let size = pow2((32 - prefix) as nat);
    (ip as int / size) * size
}

/// Two to the power `n`.
pub open spec fn pow2(n: nat) -> int
    decreases n,
{
    if n == 0 {
        1
    } else {
        2 * pow2((n - 1) as nat)
    }
}

proof fn lemma_split_push(s: Seq<char>, c: char, x: char)
    ensures
        split_on(s.push(x), c) == if x == c {
            split_on(s, c).push(Seq::<char>::empty())
        } else {
            let t = split_on(s, c);
            t.update(t.len() - 1, t.last().push(x))
        },
{
    assert(s.push(x).drop_last() == s);
}

proof fn lemma_split_nonempty(s: Seq<char>, c: char)
    ensures
        split_on(s, c).len() >= 1,
    decreases s.len(),
{
    if s.len() > 0 {
        lemma_split_nonempty(s.drop_last(), c);
    }
}

/// Splitting a prefix of `t` gives the first pieces of splitting `t`, the
/// last of them cut short.
proof fn lemma_split_prefix(t: Seq<char>, n: int, c: char)
    requires
        0 <= n <= t.len(),
    ensures
        ({
            let a = split_on(t.subrange(0, n), c);
            let b = split_on(t, c);
            &&& a.len() >= 1
            &&& b.len() >= a.len()
            &&& forall|k: int| 0 <= k < a.len() - 1 ==> #[trigger] b[k] == a[k]
            &&& a.last().len() <= b[a.len() - 1].len()
            &&& b[a.len() - 1].subrange(0, a.last().len() as int) == a.last()
        }),
    decreases t.len() - n,
{
    lemma_split_nonempty(t.subrange(0, n), c);
    if n == t.len() {
        assert(t.subrange(0, n) == t);
        let a = split_on(t, c);
        assert(a.last().subrange(0, a.last().len() as int) == a.last());
    } else {
        lemma_split_prefix(t, n + 1, c);
        let q = t.subrange(0, n);
        assert(t.subrange(0, n + 1) == q.push(t[n]));
        lemma_split_push(q, c, t[n]);
        let a = split_on(q, c);
        let a1 = split_on(t.subrange(0, n + 1), c);
        let b = split_on(t, c);
        if t[n] != c {
            let l = a.len() - 1;
            assert(a1[l] == a[l].push(t[n]));
            assert(b[l].subrange(0, a1[l].len() as int) == a1[l]);
            assert(b[l].subrange(0, a[l].len() as int) == a1[l].subrange(0, a[l].len() as int));
            assert(a1[l].subrange(0, a[l].len() as int) == a[l]);
        } else {
            assert(a1[a.len() - 1] == a.last());
            assert forall|k: int| 0 <= k < a.len() - 1 implies #[trigger] b[k] == a[k] by {
                assert(a1[k] == a[k]);
            }
        }
    }
}

/// A finished piece that is no octet, or a fifth piece, rules the text out.
proof fn reject_rest(t: Seq<char>, n: int, pieces: int)
    requires
        0 <= n <= t.len(),
        split_on(t.subrange(0, n), '.').len() == pieces + 1,
        1 <= pieces,
        pieces == 4 || !octet_ok(split_on(t.subrange(0, n), '.')[pieces - 1]),
    ensures
        ipv4_of(t) is None,
{
    lemma_split_prefix(t, n, '.');
    let b = split_on(t, '.');
    if b.len() == 4 {
        assert(b[pieces - 1] == split_on(t.subrange(0, n), '.')[pieces - 1]);
    }
}

/// A fourth digit in a piece rules the text out.
proof fn reject_long(t: Seq<char>, n: int, k: int)
    requires
        0 <= n <= t.len(),
        split_on(t.subrange(0, n), '.').len() == k + 1,
        0 <= k <= 3,
        split_on(t.subrange(0, n), '.')[k].len() > 3,
    ensures
        ipv4_of(t) is None,
{
    lemma_split_prefix(t, n, '.');
}

/// A character that is neither a digit nor a dot rules the text out.
proof fn reject_char(t: Seq<char>, n: int, k: int)
    requires
        0 <= n < t.len(),
        split_on(t.subrange(0, n), '.').len() == k + 1,
        0 <= k <= 3,
        !is_digit(t[n]) && t[n] != '.',
    ensures
        ipv4_of(t) is None,
{
    let q = t.subrange(0, n);
    assert(t.subrange(0, n + 1) == q.push(t[n]));
    lemma_split_push(q, '.', t[n]);
    lemma_split_prefix(t, n + 1, '.');
    let a1 = split_on(t.subrange(0, n + 1), '.');
    let b = split_on(t, '.');
    let seg = a1[k];
    assert(seg.last() == t[n]);
    assert(b[k].subrange(0, seg.len() as int) == seg);
    assert(b[k][seg.len() - 1] == t[n]);
    assert(!is_digit(b[k][seg.len() - 1]));
}

/// The address written in `s[from..to]`, if it is a dotted quad.
pub fn parse_ipv4(s: &str, from: usize, to: usize) -> (r: Option<u32>)
    requires
        from <= to <= s@.len(),
    ensures
        r == ipv4_of(s@.subrange(from as int, to as int)),
{
    let ghost t = s@.subrange(from as int, to as int);
    let mut value: u32 = 0;
    let mut cur: u32 = 0;
    let mut digits: usize = 0;
    let mut lead_zero: bool = false;
    let mut done: usize = 0;
    let mut i: usize = from;
    let ghost mut vals: Seq<int> = Seq::empty();
    assert(t.subrange(0, 0) == Seq::<char>::empty());
    while i < to
        invariant
            from <= i <= to <= s@.len(),
            t == s@.subrange(from as int, to as int),
            split_on(t.subrange(0, i - from), '.').len() == done + 1,
            done <= 3,
            vals.len() == done,
            forall|k: int| 0 <= k < done ==> octet_ok(#[trigger] split_on(t.subrange(0, i - from), '.')[k])
                && vals[k] == digits_value(split_on(t.subrange(0, i - from), '.')[k]),
            split_on(t.subrange(0, i - from), '.')[done as int].len() == digits,
            digits <= 3,
            all_digits(split_on(t.subrange(0, i - from), '.')[done as int]),
            cur as int == digits_value(split_on(t.subrange(0, i - from), '.')[done as int]),
            digits == 0 ==> cur == 0,
            digits <= 1 ==> cur <= 9,
            digits <= 2 ==> cur <= 99,
            cur <= 999,
            digits > 0 ==> (lead_zero <==> split_on(t.subrange(0, i - from), '.')[done as int][0] == '0'),
            value as int == (if done == 0 { 0 } else if done == 1 { vals[0] } else if done == 2 { vals[0] * 0x100 + vals[1] } else { (vals[0] * 0x100 + vals[1]) * 0x100 + vals[2] }),
            done == 0 ==> value == 0,
            done <= 1 ==> value <= 0xff,
            done <= 2 ==> value <= 0xffff,
            value <= 0xff_ffff,
        decreases to - i,
    {
        let c = s.get_char(i);
        let ghost pre = t.subrange(0, i - from);
        assert(t.subrange(0, i + 1 - from) == pre.push(c));
        proof {
            lemma_split_push(pre, '.', c);
        }
        if c == '.' {
            if digits == 0 || (digits > 1 && lead_zero) || cur > 255 || done == 3 {
                proof { reject_rest(t, (i + 1 - from) as int, done as int + 1); }
                return None;
            }
            proof {
                let pp = split_on(pre, '.');
                assert(octet_ok(pp[done as int]));
                vals = vals.push(cur as int);
            }
            value = value * 0x100 + cur;
            done = done + 1;
            cur = 0;
            digits = 0;
            lead_zero = false;
        } else if '0' <= c && c <= '9' {
            if digits == 3 {
                proof { reject_long(t, (i + 1 - from) as int, done as int); }
                return None;
            }
            if digits == 0 {
                lead_zero = c == '0';
            }
            let ghost old_seg = split_on(pre, '.')[done as int];
            proof {
                assert(old_seg.push(c).drop_last() == old_seg);
                lemma_digits_value_push(old_seg, c);
                assert(all_digits(old_seg.push(c)));
                if digits > 0 {
                    assert(old_seg.push(c)[0] == old_seg[0]);
                }
            }
            cur = cur * 10 + (c as u32 - '0' as u32);
            digits = digits + 1;
        } else {
            proof { reject_char(t, (i - from) as int, done as int); }
            return None;
        }
        i = i + 1;
    }
    let ghost p = split_on(t.subrange(0, to - from), '.');
    assert(t.subrange(0, to - from) == t);
    if done == 3 && digits >= 1 && !(digits > 1 && lead_zero) && cur <= 255 {
        assert(octet_ok(p[3]));
        Some(value * 0x100 + cur)
    } else {
        None
    }
}

/// The address and prefix length written as `a.b.c.d/p`.
pub fn parse_cidr(cidr: &str) -> (r: Option<(u32, u32)>)
    ensures
        r == cidr_of(cidr@),
        r matches Some((a, p)) ==> p <= 32,
{
    let n = cidr.unicode_len();
    let mut i: usize = 0;
    while i < n && cidr.get_char(i) != '/'
        invariant
            i <= n == cidr@.len(),
            forall|j: int| 0 <= j < i ==> cidr@[j] != '/',
        decreases n - i,
    {
        i = i + 1;
    }
    if i == n {
        assert(!(exists|j: int| 0 <= j < cidr@.len() && cidr@[j] == '/'));
        return None;
    }
    proof {
        let k = choose|k: int| 0 <= k < cidr@.len() && cidr@[k] == '/' && forall|j: int| 0 <= j < k ==> cidr@[j] != '/';
        if k < i {
        } else if k > i {
            assert(cidr@[i as int] == '/');
        }
        assert(first_index(cidr@, '/') == Some(i as int));
    }
    let ip = parse_ipv4(cidr, 0, i);
    match ip {
        None => None,
        Some(addr) => {
            if i + 1 == n {
                return None;
            }
            match digits_up_to(cidr, i + 1, n, 32) {
                Some(len) => Some((addr, len as u32)),
                None => None,
            }
        },
    }
}

} // verus!
