//! The IP address manager: one bitmap of host addresses per subnet.
use crate::network::addr::{cidr_of, network_base, parse_cidr, pow2};
use bitvec::order::Lsb0;
use bitvec::vec::BitVec;
use vstd::prelude::*;
use vstd::string::StrSliceExecFns;

verus! {

/// A bitmap of host addresses: bit `i` is set while host `i + 1` is in use.
/// Verus refuses a declaration of `BitVec` itself (its bounds name bitvec's
/// traits), so the bitmap is held here, behind the functions below.
#[verifier::external_body]
#[derive(Debug)]
pub struct Bitmap {
    bits: BitVec<u8, Lsb0>,
}

/// The bits of a bitmap, in order.
pub uninterp spec fn bits_of(b: Bitmap) -> Seq<bool>;

/// Relies on BitVec::repeat: `n` clear bits.
#[verifier::external_body]
fn bitmap_clear(n: usize) -> (r: Bitmap)
    requires
        n <= 0xffff_fffe,
    ensures
        bits_of(r) == Seq::new(n as nat, |i: int| false),
{
    Bitmap { bits: BitVec::repeat(false, n) }
}

/// Relies on BitVec's length.
#[verifier::external_body]
fn bitmap_len(b: &Bitmap) -> (r: usize)
    ensures
        r == bits_of(*b).len(),
{
    b.bits.len()
}

/// Relies on BitSlice's indexing: the bit at `i`.
#[verifier::external_body]
fn bitmap_get(b: &Bitmap, i: usize) -> (r: bool)
    requires
        i < bits_of(*b).len(),
    ensures
        r == bits_of(*b)[i as int],
{
    b.bits[i]
}

/// Relies on BitSlice::set: writes the bit at `i`.
#[verifier::external_body]
fn bitmap_set(b: &mut Bitmap, i: usize, v: bool)
    requires
        i < bits_of(*old(b)).len(),
    ensures
        bits_of(*final(b)) == bits_of(*old(b)).update(i as int, v),
{
    b.bits.set(i, v)
}

/// Relies on BitSlice::first_zero: the lowest clear bit, if any.
#[verifier::external_body]
fn bitmap_first_zero(b: &Bitmap) -> (r: Option<usize>)
    ensures
        match r {
            Some(i) => i < bits_of(*b).len() && !bits_of(*b)[i as int] && forall|j: int|
                0 <= j < i ==> bits_of(*b)[j],
            None => forall|j: int| 0 <= j < bits_of(*b).len() ==> bits_of(*b)[j],
        },
{
    b.bits.first_zero()
}

/// Why an address operation failed.
#[derive(Debug, Clone, Copy, PartialEq, Eq, Structural)]
pub enum IpamError {
    /// The text is not `a.b.c.d/p` with `p` at most 32.
    InvalidCidr,
    /// The subnet is already managed.
    DuplicateSubnet,
    /// The subnet is not managed.
    UnknownSubnet,
    /// Every host address of the subnet is in use.
    Exhausted,
    /// The address asked for is already in use.
    AlreadyAllocated,
    /// The address lies outside the subnet.
    NotInSubnet,
    /// The address is no host address of the subnet.
    OutOfRange,
    /// The address is not in use.
    NotAllocated,
    /// The subnet has more hosts than this machine can index.
    TooLarge,
}

/// The bits of subnet `i`.
pub open spec fn bits_at(e: Pool, i: int) -> Seq<bool> {
    e[i].1
}

/// The number of host addresses of a block with this prefix length: all but
/// the network and broadcast addresses.
pub open spec fn host_count(prefix: u32) -> int {
    if prefix >= 31 {
        0
    } else {
        pow2((32 - prefix) as nat) - 2
    }
}

/// The subnets, each with the bits of its bitmap.
pub type Pool = Seq<(Seq<char>, Seq<bool>)>;

/// The position of `cidr` in the pool, or -1.
pub open spec fn find(e: Pool, cidr: Seq<char>) -> int
    decreases e.len(),
{
    if e.len() == 0 {
        -1
    } else if e.last().0 == cidr {
        e.len() - 1
    } else {
        find(e.drop_last(), cidr)
    }
}

/// The lowest clear bit at or after `i`, if any.
pub open spec fn clear_from(bits: Seq<bool>, i: int) -> Option<int>
    decreases bits.len() - i,
{
    if i < 0 || i >= bits.len() {
        None
    } else if !bits[i] {
        Some(i)
    } else {
        clear_from(bits, i + 1)
    }
}

/// The lowest clear bit, if any.
pub open spec fn lowest_clear(bits: Seq<bool>) -> Option<int> {
    clear_from(bits, 0)
}

proof fn lemma_clear_from(bits: Seq<bool>, i: int)
    requires
        0 <= i,
    ensures
        match clear_from(bits, i) {
            Some(k) => i <= k < bits.len() && !bits[k] && forall|j: int| i <= j < k ==> bits[j],
            None => forall|j: int| i <= j < bits.len() ==> bits[j],
        },
    decreases bits.len() - i,
{
    if i < bits.len() && bits[i] {
        lemma_clear_from(bits, i + 1);
    }
}

/// The address of host index `k` in the block `cidr`.
pub open spec fn host_ip(cidr: Seq<char>, k: int) -> u32 {
    let (a, p) = cidr_of(cidr)->0;
    (network_base(a, p) + k + 1) as u32
}

/// Every subnet is managed once, its text is a block, and its bitmap has a
/// bit for each host address.
pub open spec fn pool_wf(e: Pool) -> bool {
    &&& forall|i: int, j: int| 0 <= i < j < e.len() ==> #[trigger] e[i].0 != #[trigger] e[j].0
    &&& forall|i: int| 0 <= i < e.len() ==> (#[trigger] cidr_of(e[i].0)) is Some
        && bits_at(e, i).len() == host_count((cidr_of(e[i].0)->0).1)
}

pub open spec fn add_spec(e: Pool, cidr: Seq<char>) -> (Pool, Result<(), IpamError>) {
    if find(e, cidr) >= 0 {
        (e, Err(IpamError::DuplicateSubnet))
    } else {
        match cidr_of(cidr) {
            None => (e, Err(IpamError::InvalidCidr)),
            Some((a, p)) => if host_count(p) > usize::MAX {
                (e, Err(IpamError::TooLarge))
            } else {
                (e.push((cidr, Seq::new(host_count(p) as nat, |i: int| false))), Ok(()))
            },
        }
    }
}

pub open spec fn allocate_spec(e: Pool, cidr: Seq<char>) -> (Pool, Result<u32, IpamError>) {
    let i = find(e, cidr);
    if i < 0 {
        (e, Err(IpamError::UnknownSubnet))
    } else {
        match lowest_clear(bits_at(e, i)) {
            None => (e, Err(IpamError::Exhausted)),
            Some(k) => (e.update(i, (cidr, bits_at(e, i).update(k, true))), Ok(host_ip(cidr, k))),
        }
    }
}

pub open spec fn allocate_at_spec(e: Pool, cidr: Seq<char>, k: int) -> (Pool, Result<u32, IpamError>) {
    let i = find(e, cidr);
    if i < 0 {
        (e, Err(IpamError::UnknownSubnet))
    } else if k >= bits_at(e, i).len() {
        (e, Err(IpamError::OutOfRange))
    } else if bits_at(e, i)[k] {
        (e, Err(IpamError::AlreadyAllocated))
    } else {
        (e.update(i, (cidr, bits_at(e, i).update(k, true))), Ok(host_ip(cidr, k)))
    }
}

pub open spec fn release_spec(e: Pool, cidr: Seq<char>, ip: u32) -> (Pool, Result<(), IpamError>) {
    match cidr_of(cidr) {
        None => (e, Err(IpamError::InvalidCidr)),
        Some((a, p)) => {
            let base = network_base(a, p);
            let size = pow2((32 - p) as nat);
            let i = find(e, cidr);
            if !(base <= ip < base + size) {
                (e, Err(IpamError::NotInSubnet))
            } else if ip == base {
                (e, Err(IpamError::OutOfRange))
            } else if i < 0 {
                (e, Err(IpamError::UnknownSubnet))
            } else if ip - base - 1 >= bits_at(e, i).len() {
                (e, Err(IpamError::OutOfRange))
            } else if !bits_at(e, i)[ip - base - 1] {
                (e, Err(IpamError::NotAllocated))
            } else {
                (e.update(i, (cidr, bits_at(e, i).update(ip - base - 1, false))), Ok(()))
            }
        },
    }
}

} // verus!

verus! {

proof fn lemma_find(e: Pool, c: Seq<char>)
    ensures
        -1 <= find(e, c) < e.len(),
        find(e, c) >= 0 ==> e[find(e, c)].0 == c,
        find(e, c) < 0 ==> forall|i: int| 0 <= i < e.len() ==> #[trigger] e[i].0 != c,
    decreases e.len(),
{
    if e.len() > 0 {
        lemma_find(e.drop_last(), c);
        assert forall|i: int| 0 <= i < e.len() - 1 implies #[trigger] e[i] == e.drop_last()[i] by {}
    }
}

proof fn lemma_pow2_32()
    ensures
        pow2(32) == 0x1_0000_0000,
{
    reveal_with_fuel(pow2, 33);
}

proof fn lemma_pow2_pos(n: nat)
    ensures
        pow2(n) >= 1,
    decreases n,
{
    if n > 0 {
        lemma_pow2_pos((n - 1) as nat);
    }
}

/// `2^(32 - p)`.
fn block_size(p: u32) -> (r: u64)
    requires
        p <= 32,
    ensures
        r == pow2((32 - p) as nat),
{
    let mut r: u64 = 1;
    let mut j: u32 = 0;
    while j < 32 - p
        invariant
            p <= 32,
            j <= 32 - p,
            r == pow2(j as nat),
        decreases 32 - p - j,
    {
        proof {
            lemma_pow2_mono((j + 1) as nat, 32);
            lemma_pow2_32();
            assert(pow2((j + 1) as nat) == 2 * pow2(j as nat));
        }
        r = r * 2;
        j = j + 1;
    }
    r
}

proof fn lemma_pow2_mono(a: nat, b: nat)
    requires
        a <= b,
    ensures
        pow2(a) <= pow2(b),
    decreases b - a,
{
    if a < b {
        lemma_pow2_mono(a, (b - 1) as nat);
        lemma_pow2_pos((b - 1) as nat);
    }
}

/// The subnets and their bitmaps.
#[derive(Debug)]
pub struct IPAM {
    subnets: Vec<(String, Bitmap)>,
}

impl IPAM {
    pub closed spec fn pool(&self) -> Pool {
        self.subnets@.map_values(|e: (String, Bitmap)| (e.0@, bits_of(e.1)))
    }

    pub open spec fn wf(&self) -> bool {
        pool_wf(self.pool())
    }

    /// No subnets.
    pub fn empty() -> (r: Self)
        ensures
            r.pool() == Seq::<(Seq<char>, Seq<bool>)>::empty(),
            r.wf(),
    {
        let r = IPAM { subnets: Vec::new() };
        assert(r.pool() =~= Seq::<(Seq<char>, Seq<bool>)>::empty());
        r
    }

    fn find_subnet(&self, cidr: &String) -> (r: Option<usize>)
        ensures
            match r {
                Some(i) => i as int == find(self.pool(), cidr@),
                None => find(self.pool(), cidr@) < 0,
            },
    {
        let ghost e = self.pool();
        let mut i: usize = self.subnets.len();
        assert(e.subrange(0, e.len() as int) == e);
        while i > 0
            invariant
                i <= self.subnets@.len(),
                e == self.pool(),
                e.len() == self.subnets@.len(),
                find(e, cidr@) == find(e.subrange(0, i as int), cidr@),
            decreases i,
        {
            let ghost sub = e.subrange(0, i as int);
            assert(sub.drop_last() == e.subrange(0, i - 1));
            assert(sub.last() == e[i - 1]);
            if self.subnets[i - 1].0 == *cidr {
                return Some(i - 1);
            }
            i = i - 1;
        }
        None
    }

    /// Takes a subnet in: `cidr` must be a block `a.b.c.d/p` not yet managed.
    pub fn add_subnet(&mut self, cidr: &str) -> (r: Result<(), IpamError>)
        requires
            old(self).wf(),
        ensures
            (final(self).pool(), r) == add_spec(old(self).pool(), cidr@),
            final(self).wf(),
    {
        let key = cidr.to_owned();
        if let Some(_) = self.find_subnet(&key) {
            return Err(IpamError::DuplicateSubnet);
        }
        let (_, prefix) = match parse_cidr(cidr) {
            Some(c) => c,
            None => {
                return Err(IpamError::InvalidCidr);
            },
        };
        proof {
            if prefix < 31 {
                lemma_pow2_mono(2, (32 - prefix) as nat);
                reveal_with_fuel(pow2, 3);
            }
        }
        let count: u64 = if prefix >= 31 {
            0
        } else {
            block_size(prefix) - 2
        };
        proof {
            if prefix < 31 {
                lemma_pow2_mono((32 - prefix) as nat, 32);
                lemma_pow2_32();
            }
        }
        if count > usize::MAX as u64 {
            return Err(IpamError::TooLarge);
        }
        let bitmap = bitmap_clear(count as usize);
        let ghost before = self.pool();
        self.subnets.push((key, bitmap));
        proof {
            lemma_find(before, cidr@);
            assert(self.pool() =~= before.push((cidr@, Seq::new(count as nat, |i: int| false))));
            let e = self.pool();
            assert forall|i: int, j: int| 0 <= i < j < e.len() implies #[trigger] e[i].0 != #[trigger] e[j].0 by {
                if j < before.len() {
                    assert(e[i] == before[i] && e[j] == before[j]);
                } else {
                    assert(e[i] == before[i]);
                }
            }
            assert forall|i: int| 0 <= i < e.len() implies (#[trigger] cidr_of(e[i].0)) is Some
                && bits_at(e, i).len() == host_count((cidr_of(e[i].0)->0).1) by {
                if i < before.len() {
                    assert(e[i] == before[i]);
                }
            }
        }
        Ok(())
    }
    /// Writes bit `k` of subnet `i`.
    fn write_bit(&mut self, i: usize, k: usize, v: bool)
        requires
            i < old(self).pool().len(),
            k < bits_at(old(self).pool(), i as int).len(),
            old(self).wf(),
        ensures
            final(self).pool() == old(self).pool().update(
                i as int,
                (old(self).pool()[i as int].0, bits_at(old(self).pool(), i as int).update(k as int, v)),
            ),
            final(self).wf(),
    {
        let ghost before = self.pool();
        let (key, mut bits) = self.subnets.remove(i);
        assert(bits_of(bits) == bits_at(before, i as int));
        bitmap_set(&mut bits, k, v);
        self.subnets.insert(i, (key, bits));
        proof {
            let e = self.pool();
            assert(e =~= before.update(i as int, (before[i as int].0, bits_at(before, i as int).update(k as int, v))));
            assert forall|a: int, b: int| 0 <= a < b < e.len() implies #[trigger] e[a].0 != #[trigger] e[b].0 by {
                assert(e[a].0 == before[a].0 && e[b].0 == before[b].0);
            }
            assert forall|a: int| 0 <= a < e.len() implies (#[trigger] cidr_of(e[a].0)) is Some
                && bits_at(e, a).len() == host_count((cidr_of(e[a].0)->0).1) by {
                assert(e[a].0 == before[a].0);
            }
        }
    }

    /// Hands out the lowest free host address of the subnet.
    pub fn allocate_ip(&mut self, cidr: &str) -> (r: Result<u32, IpamError>)
        requires
            old(self).wf(),
        ensures
            (final(self).pool(), r) == allocate_spec(old(self).pool(), cidr@),
            final(self).wf(),
    {
        let key = cidr.to_owned();
        let i = match self.find_subnet(&key) {
            Some(i) => i,
            None => {
                return Err(IpamError::UnknownSubnet);
            },
        };
        proof {
            lemma_find(self.pool(), cidr@);
        }
        let ghost bits = bits_at(self.pool(), i as int);
        assert(bits_of(self.subnets@[i as int].1) == bits);
        match bitmap_first_zero(&self.subnets[i].1) {
            None => {
                proof {
                    lemma_clear_from(bits, 0);
                }
                Err(IpamError::Exhausted)
            },
            Some(k) => {
                proof {
                    lemma_clear_from(bits, 0);
                }
                let (a, p) = match parse_cidr(cidr) {
                    Some(c) => c,
                    None => {
                        return Err(IpamError::InvalidCidr);
                    },
                };
                proof {
                    assert(bits.len() == host_count(p));
                    lemma_pow2_pos((32 - p) as nat);
                }
                self.write_bit(i, k, true);
                let (base, _size) = block_of(a, p);
                Ok((base + k as u64 + 1) as u32)
            },
        }
    }

    /// Hands out the host address at index `k` of the subnet.
    fn allocate_specific_ip(&mut self, cidr: &str, k: u32) -> (r: Result<u32, IpamError>)
        requires
            old(self).wf(),
        ensures
            (final(self).pool(), r) == allocate_at_spec(old(self).pool(), cidr@, k as int),
            final(self).wf(),
    {
        let key = cidr.to_owned();
        let i = match self.find_subnet(&key) {
            Some(i) => i,
            None => {
                return Err(IpamError::UnknownSubnet);
            },
        };
        proof {
            lemma_find(self.pool(), cidr@);
        }
        let ghost bits = bits_at(self.pool(), i as int);
        assert(bits_of(self.subnets@[i as int].1) == bits);
        if k as usize >= bitmap_len(&self.subnets[i].1) {
            return Err(IpamError::OutOfRange);
        }
        if bitmap_get(&self.subnets[i].1, k as usize) {
            return Err(IpamError::AlreadyAllocated);
        }
        let (a, p) = match parse_cidr(cidr) {
            Some(c) => c,
            None => {
                return Err(IpamError::InvalidCidr);
            },
        };
        proof {
            assert(bits.len() == host_count(p));
            lemma_pow2_pos((32 - p) as nat);
        }
        self.write_bit(i, k as usize, true);
        let (base, _size) = block_of(a, p);
        Ok((base + k as u64 + 1) as u32)
    }

    /// Reserves the gateway: by policy the first host address of the subnet,
    /// bit 0 of its bitmap.
    pub fn allocate_gateway(&mut self, cidr: &str) -> (r: Result<u32, IpamError>)
        requires
            old(self).wf(),
        ensures
            (final(self).pool(), r) == allocate_at_spec(old(self).pool(), cidr@, 0),
            final(self).wf(),
    {
        self.allocate_specific_ip(cidr, 0)
    }

    /// Gives back an address of the subnet.
    pub fn release_ip(&mut self, cidr: &str, ip: u32) -> (r: Result<(), IpamError>)
        requires
            old(self).wf(),
        ensures
            (final(self).pool(), r) == release_spec(old(self).pool(), cidr@, ip),
            final(self).wf(),
    {
        let (a, p) = match parse_cidr(cidr) {
            Some(c) => c,
            None => {
                return Err(IpamError::InvalidCidr);
            },
        };
        let (base, size) = block_of(a, p);
        if !(base <= ip as u64 && (ip as u64) < base + size) {
            return Err(IpamError::NotInSubnet);
        }
        if ip as u64 == base {
            return Err(IpamError::OutOfRange);
        }
        let key = cidr.to_owned();
        let i = match self.find_subnet(&key) {
            Some(i) => i,
            None => {
                return Err(IpamError::UnknownSubnet);
            },
        };
        proof {
            lemma_find(self.pool(), cidr@);
        }
        let ghost bits = bits_at(self.pool(), i as int);
        assert(bits_of(self.subnets@[i as int].1) == bits);
        let k = (ip as u64 - base - 1) as usize;
        if k >= bitmap_len(&self.subnets[i].1) {
            return Err(IpamError::OutOfRange);
        }
        if !bitmap_get(&self.subnets[i].1, k) {
            return Err(IpamError::NotAllocated);
        }
        self.write_bit(i, k, false);
        Ok(())
    }
}

proof fn lemma_pow2_add(x: nat, y: nat)
    ensures
        pow2(x + y) == pow2(x) * pow2(y),
    decreases x,
{
    if x > 0 {
        lemma_pow2_add((x - 1) as nat, y);
        assert(pow2(x + y) == 2 * pow2((x - 1 + y) as nat));
        assert(2 * (pow2((x - 1) as nat) * pow2(y)) == (2 * pow2((x - 1) as nat)) * pow2(y)) by (nonlinear_arith);
    }
}

/// A block ends at or before the end of the address space.
proof fn lemma_block_fits(a: u32, p: u32)
    requires
        p <= 32,
    ensures
        network_base(a, p) + pow2((32 - p) as nat) <= 0x1_0000_0000,
        network_base(a, p) <= a,
{
    let size = pow2((32 - p) as nat);
    let m = pow2(p as nat);
    lemma_pow2_add((32 - p) as nat, p as nat);
    lemma_pow2_32();
    lemma_pow2_pos((32 - p) as nat);
    lemma_pow2_pos(p as nat);
    assert(((32 - p) as nat + p as nat) as nat == 32nat);
    let q = a as int / size;
    assert(q * size <= a) by (nonlinear_arith)
        requires
            size >= 1,
            q == a as int / size,
            a >= 0,
    ;
    assert(q < m) by (nonlinear_arith)
        requires
            size >= 1,
            q == a as int / size,
            a < size * m,
            a >= 0,
    ;
    assert(q * size + size <= m * size) by (nonlinear_arith)
        requires
            q + 1 <= m,
            size >= 1,
    ;
}

proof fn lemma_find_update(e: Pool, i: int, v: (Seq<char>, Seq<bool>), c: Seq<char>)
    requires
        0 <= i < e.len(),
        e[i].0 == v.0,
    ensures
        find(e.update(i, v), c) == find(e, c),
    decreases e.len(),
{
    let u = e.update(i, v);
    if e.len() > 0 {
        if i < e.len() - 1 {
            assert(u.drop_last() == e.drop_last().update(i, v));
            lemma_find_update(e.drop_last(), i, v, c);
        } else {
            assert(u.drop_last() == e.drop_last());
        }
    }
}

/// Releasing the address that an allocation handed out gives back the pool
/// as it was, bit for bit.
pub proof fn lemma_allocate_release(e: Pool, cidr: Seq<char>)
    requires
        pool_wf(e),
        allocate_spec(e, cidr).1 is Ok,
    ensures
        release_spec(allocate_spec(e, cidr).0, cidr, allocate_spec(e, cidr).1->Ok_0) == (e, Ok::<(), IpamError>(())),
{
    lemma_find(e, cidr);
    let i = find(e, cidr);
    let bits = bits_at(e, i);
    let k = lowest_clear(bits)->0;
    lemma_clear_from(bits, 0);
    let (a, p) = cidr_of(cidr)->0;
    assert(cidr_of(e[i].0) is Some);
    let size = pow2((32 - p) as nat);
    let base = network_base(a, p);
    lemma_block_fits(a, p);
    lemma_pow2_pos((32 - p) as nat);
    assert(0 <= k < bits.len());
    assert(bits.len() == host_count(p));
    let e2 = e.update(i, (cidr, bits.update(k, true)));
    lemma_find_update(e, i, (cidr, bits.update(k, true)), cidr);
    let ip = host_ip(cidr, k);
    assert(ip == base + k + 1);
    assert(bits_at(e2, i) == bits.update(k, true));
    assert(bits.update(k, true).update(k, false) =~= bits);
    assert(e2.update(i, (cidr, bits_at(e2, i).update(k, false))) == e);
}

/// The number of set bits.
pub open spec fn count_set(bits: Seq<bool>) -> int
    decreases bits.len(),
{
    if bits.len() == 0 {
        0
    } else {
        count_set(bits.drop_last()) + if bits.last() {
            1int
        } else {
            0
        }
    }
}

proof fn lemma_count_update(bits: Seq<bool>, k: int, v: bool)
    requires
        0 <= k < bits.len(),
    ensures
        count_set(bits.update(k, v)) == count_set(bits) + (if v { 1int } else { 0 }) - (if bits[k] { 1int } else { 0 }),
    decreases bits.len(),
{
    let u = bits.update(k, v);
    if k < bits.len() - 1 {
        assert(u.drop_last() == bits.drop_last().update(k, v));
        lemma_count_update(bits.drop_last(), k, v);
    } else {
        assert(u.drop_last() == bits.drop_last());
    }
}

/// The number of addresses in use in a subnet of the pool.
pub open spec fn used(e: Pool, cidr: Seq<char>) -> int {
    count_set(bits_at(e, find(e, cidr)))
}

/// A successful allocation puts one more address of the subnet in use, the
/// lowest one that was free.
pub proof fn lemma_allocate_counts(e: Pool, cidr: Seq<char>)
    requires
        allocate_spec(e, cidr).1 is Ok,
    ensures
        used(allocate_spec(e, cidr).0, cidr) == used(e, cidr) + 1,
        ({
            let k = lowest_clear(bits_at(e, find(e, cidr)))->0;
            &&& !bits_at(e, find(e, cidr))[k]
            &&& forall|j: int| 0 <= j < k ==> bits_at(e, find(e, cidr))[j]
        }),
{
    lemma_find(e, cidr);
    let i = find(e, cidr);
    let bits = bits_at(e, i);
    let k = lowest_clear(bits)->0;
    lemma_clear_from(bits, 0);
    lemma_find_update(e, i, (cidr, bits.update(k, true)), cidr);
    lemma_count_update(bits, k, true);
}

/// A successful release puts one address of the subnet out of use.
pub proof fn lemma_release_counts(e: Pool, cidr: Seq<char>, ip: u32)
    requires
        release_spec(e, cidr, ip).1 is Ok,
    ensures
        used(release_spec(e, cidr, ip).0, cidr) == used(e, cidr) - 1,
{
    lemma_find(e, cidr);
    let i = find(e, cidr);
    let bits = bits_at(e, i);
    let (a, p) = cidr_of(cidr)->0;
    let k = ip - network_base(a, p) - 1;
    lemma_find_update(e, i, (cidr, bits.update(k, false)), cidr);
    lemma_count_update(bits, k, false);
}

/// The first address and the size of the block `a/p`.
fn block_of(a: u32, p: u32) -> (r: (u64, u64))
    requires
        p <= 32,
    ensures
        r.0 == network_base(a, p),
        r.1 == pow2((32 - p) as nat),
        r.0 <= a,
        r.0 + r.1 <= 0x1_0000_0000,
{
    let size = block_size(p);
    proof {
        lemma_pow2_pos((32 - p) as nat);
        lemma_block_fits(a, p);
    }
    let q = a as u64 / size;
    assert(q * size <= a as u64) by (nonlinear_arith)
        requires
            size >= 1,
            q == a as u64 / size,
    ;
    (q * size, size)
}

} // verus!

verus! {

/// Bit `b` of the byte `x`, counting from the least significant.
pub open spec fn byte_bit(x: u8, b: int) -> bool {
    ((x >> (b as u8)) & 1u8) == 1u8
}

/// The number of bytes that hold `n` bits.
pub open spec fn byte_count(n: int) -> int {
    (n + 7) / 8
}

/// `bytes` holds `bits`, eight to a byte, least significant bit first, with
/// the unused high bits of the last byte clear.
pub open spec fn packs(bytes: Seq<u8>, bits: Seq<bool>) -> bool {
    &&& bytes.len() == byte_count(bits.len() as int)
    &&& forall|j: int, b: int| 0 <= j < bytes.len() && 0 <= b < 8 ==> #[trigger] byte_bit(bytes[j], b)
        == (8 * j + b < bits.len() && bits[8 * j + b])
}

/// The first `n` bits that `bytes` holds.
pub open spec fn unpack(bytes: Seq<u8>, n: int) -> Seq<bool> {
    Seq::new(n as nat, |i: int| byte_bit(bytes[i / 8], i % 8))
}

proof fn lemma_byte_count(n: int)
    requires
        n >= 0,
    ensures
        byte_count(n) == n / 8 + if n % 8 == 0 { 0int } else { 1int },
{
    assert((n + 7) / 8 == n / 8 + if n % 8 == 0 { 0int } else { 1int }) by (nonlinear_arith)
        requires
            n >= 0,
    ;
}

/// Reading back packed bits gives the bits.
pub proof fn lemma_unpack_packs(bytes: Seq<u8>, bits: Seq<bool>)
    requires
        packs(bytes, bits),
    ensures
        unpack(bytes, bits.len() as int) == bits,
{
    assert forall|i: int| 0 <= i < bits.len() implies #[trigger] unpack(bytes, bits.len() as int)[i] == bits[i] by {
        let j = i / 8;
        let b = i % 8;
        assert(8 * j + b == i);
        assert(byte_bit(bytes[j], b) == (8 * j + b < bits.len() && bits[8 * j + b]));
    }
    assert(unpack(bytes, bits.len() as int) =~= bits);
}

proof fn lemma_set_bit(x: u8, b: u8, v: bool, c: u8)
    requires
        b < 8,
        c < 8,
        x < (1u8 << b),
    ensures
        ({
            let y: u8 = if v { x | (1u8 << b) } else { x };
            &&& byte_bit(y, c as int) == if c == b { v } else { byte_bit(x, c as int) }
            &&& b < 7 ==> y < (1u8 << ((b + 1) as u8))
        }),
{
    let y: u8 = if v { x | (1u8 << b) } else { x };
    assert(((x | (1u8 << b)) >> c) & 1u8 == if c == b { 1u8 } else { (x >> c) & 1u8 }) by (bit_vector)
        requires
            b < 8u8,
            c < 8u8,
            x < (1u8 << b),
    ;
    assert((x >> b) & 1u8 == 0u8) by (bit_vector)
        requires
            b < 8u8,
            x < (1u8 << b),
    ;
    assert(b < 7u8 ==> (x | (1u8 << b)) < (1u8 << ((b + 1) as u8)) && x < (1u8 << ((b + 1) as u8))) by (bit_vector)
        requires
            b < 8u8,
            x < (1u8 << b),
    ;
}

proof fn lemma_high_bits_clear(x: u8, b: u8, c: u8)
    requires
        b <= 8,
        b <= c < 8,
        b < 8 ==> x < (1u8 << b),
    ensures
        !byte_bit(x, c as int),
{
    if b < 8 {
        assert((x >> c) & 1u8 == 0u8) by (bit_vector)
            requires
                b < 8u8,
                b <= c,
                c < 8u8,
                x < (1u8 << b),
        ;
    }
}

} // verus!

verus! {

/// The subnets of `entries` can be restored: each text is a block managed
/// once, and its bytes hold exactly as many bits as the block has hosts.
pub open spec fn restorable(entries: Seq<(Seq<char>, Seq<u8>)>) -> bool {
    &&& forall|i: int, j: int| 0 <= i < j < entries.len() ==> #[trigger] entries[i].0 != #[trigger] entries[j].0
    &&& forall|i: int| 0 <= i < entries.len() ==> (#[trigger] cidr_of(entries[i].0)) is Some && host_count(
        (cidr_of(entries[i].0)->0).1,
    ) <= usize::MAX && entries[i].1.len() == byte_count(host_count((cidr_of(entries[i].0)->0).1))
}

/// The pool that `entries` restore.
pub open spec fn restored(entries: Seq<(Seq<char>, Seq<u8>)>) -> Pool {
    entries.map_values(|e: (Seq<char>, Seq<u8>)| (e.0, unpack(e.1, host_count((cidr_of(e.0)->0).1))))
}

/// The texts and bytes of raw entries.
pub open spec fn raw_view(entries: Seq<(String, Vec<u8>)>) -> Seq<(Seq<char>, Seq<u8>)> {
    entries.map_values(|e: (String, Vec<u8>)| (e.0@, e.1@))
}

impl IPAM {
    /// Each subnet with its bitmap as bytes, eight bits to a byte, least
    /// significant bit first.
    pub fn to_raw(&self) -> (r: Vec<(String, Vec<u8>)>)
        requires
            self.wf(),
        ensures
            r@.len() == self.pool().len(),
            forall|i: int| 0 <= i < r@.len() ==> (#[trigger] r@[i]).0@ == self.pool()[i].0 && packs(
                r@[i].1@,
                bits_at(self.pool(), i),
            ),
    {
        let mut out: Vec<(String, Vec<u8>)> = Vec::new();
        let mut i: usize = 0;
        while i < self.subnets.len()
            invariant
                i <= self.subnets@.len(),
                self.pool().len() == self.subnets@.len(),
                out@.len() == i,
                forall|k: int| 0 <= k < i ==> (#[trigger] out@[k]).0@ == self.pool()[k].0 && packs(
                    out@[k].1@,
                    bits_at(self.pool(), k),
                ),
            decreases self.subnets@.len() - i,
        {
            let bytes = pack_bitmap(&self.subnets[i].1);
            assert(bits_of(self.subnets@[i as int].1) == bits_at(self.pool(), i as int));
            out.push((self.subnets[i].0.clone(), bytes));
            i = i + 1;
        }
        out
    }

    /// Takes in one subnet with the bits that `bytes` hold.
    fn restore_one(&mut self, cidr: &str, bytes: &Vec<u8>) -> (r: Result<(), IpamError>)
        requires
            old(self).wf(),
        ensures
            final(self).wf(),
            r is Ok <==> add_spec(old(self).pool(), cidr@).1 is Ok && bytes@.len() == byte_count(
                host_count((cidr_of(cidr@)->0).1),
            ),
            r is Ok ==> final(self).pool() == old(self).pool().push(
                (cidr@, unpack(bytes@, host_count((cidr_of(cidr@)->0).1))),
            ),
    {
        let ghost start = self.pool();
        match self.add_subnet(cidr) {
            Err(e) => {
                return Err(e);
            },
            Ok(()) => {},
        }
        let ghost p = (cidr_of(cidr@)->0).1;
        proof {
            if p < 31 {
                lemma_pow2_mono(2, (32 - p) as nat);
                reveal_with_fuel(pow2, 3);
            }
            assert(host_count(p) >= 0);
            assert(self.pool() == start.push((cidr@, Seq::new(host_count(p) as nat, |t: int| false))));
        }
        assert(self.pool().len() == self.subnets@.len());
        let i = self.subnets.len() - 1;
        assert(bits_of(self.subnets@[i as int].1) == bits_at(self.pool(), i as int));
        let n = bitmap_len(&self.subnets[i].1);
        proof {
            lemma_byte_count(n as int);
        }
        if bytes.len() != n / 8 + if n % 8 == 0 { 0 } else { 1 } {
            return Err(IpamError::OutOfRange);
        }
        let mut t: usize = 0;
        while t < n
            invariant
                i + 1 == self.pool().len(),
                t <= n,
                n == host_count(p),
                bytes@.len() == byte_count(n as int),
                self.wf(),
                self.pool().subrange(0, i as int) == start,
                self.pool()[i as int].0 == cidr@,
                bits_at(self.pool(), i as int).len() == n,
                forall|q: int| 0 <= q < n ==> #[trigger] bits_at(self.pool(), i as int)[q] == (q < t && byte_bit(bytes@[q / 8], q % 8)),
            decreases n - t,
        {
            let x = bytes[t / 8];
            let bit = (x >> ((t % 8) as u8)) & 1u8 == 1u8;
            if bit {
                let ghost before = self.pool();
                self.write_bit(i, t, true);
                assert(self.pool().subrange(0, i as int) == before.subrange(0, i as int));
            }
            t = t + 1;
        }
        proof {
            assert(bits_at(self.pool(), i as int) =~= unpack(bytes@, host_count(p)));
            assert(self.pool() =~= start.push((cidr@, unpack(bytes@, host_count(p)))));
        }
        Ok(())
    }

    /// The subnets that raw entries describe, or an error where they cannot
    /// be restored.
    pub fn from_raw(entries: Vec<(String, Vec<u8>)>) -> (r: Result<IPAM, IpamError>)
        ensures
            r is Ok <==> restorable(raw_view(entries@)),
            r matches Ok(ipam) ==> ipam.wf() && ipam.pool() == restored(raw_view(entries@)),
    {
        let ghost all = raw_view(entries@);
        let mut ipam = IPAM::empty();
        let mut i: usize = 0;
        assert(all.subrange(0, 0) =~= Seq::<(Seq<char>, Seq<u8>)>::empty());
        assert(restored(all.subrange(0, 0)) =~= Seq::<(Seq<char>, Seq<bool>)>::empty());
        while i < entries.len()
            invariant
                i <= entries@.len(),
                all == raw_view(entries@),
                ipam.wf(),
                ipam.pool() == restored(all.subrange(0, i as int)),
                restorable(all.subrange(0, i as int)),
            decreases entries@.len() - i,
        {
            let ghost pre = all.subrange(0, i as int);
            let ghost next = all.subrange(0, i + 1);
            assert(next == pre.push(all[i as int]));
            assert(all[i as int] == (entries@[i as int].0@, entries@[i as int].1@));
            let ghost cidr = entries@[i as int].0@;
            proof {
                lemma_find(ipam.pool(), cidr);
            }
            match ipam.restore_one(entries[i].0.as_str(), &entries[i].1) {
                Err(e) => {
                    proof {
                        if restorable(all) {
                            if find(restored(pre), cidr) >= 0 {
                                let k = find(restored(pre), cidr);
                                assert(all[k].0 == restored(pre)[k].0);
                                assert(all[k].0 != all[i as int].0);
                            }
                            assert(cidr_of(all[i as int].0) is Some);
                        }
                    }
                    return Err(e);
                },
                Ok(()) => {},
            }
            proof {
                assert(restored(next) =~= restored(pre).push((cidr, unpack(all[i as int].1, host_count((cidr_of(cidr)->0).1)))));
                assert forall|a: int, b: int| 0 <= a < b < next.len() implies #[trigger] next[a].0 != #[trigger] next[b].0 by {
                    if b < i {
                        assert(next[a] == pre[a] && next[b] == pre[b]);
                    } else {
                        assert(restored(pre)[a].0 == next[a].0);
                    }
                }
                assert forall|a: int| 0 <= a < next.len() implies (#[trigger] cidr_of(next[a].0)) is Some && host_count(
                    (cidr_of(next[a].0)->0).1,
                ) <= usize::MAX && next[a].1.len() == byte_count(host_count((cidr_of(next[a].0)->0).1)) by {
                    if a < i {
                        assert(next[a] == pre[a]);
                    }
                }
            }
            i = i + 1;
        }
        assert(all.subrange(0, entries@.len() as int) == all);
        Ok(ipam)
    }
}

/// The bits of a bitmap as bytes; see `packs`.
fn pack_bitmap(b: &Bitmap) -> (r: Vec<u8>)
    ensures
        packs(r@, bits_of(*b)),
{
    let ghost bits = bits_of(*b);
    let n = bitmap_len(b);
    proof {
        lemma_byte_count(n as int);
    }
    let count = n / 8 + if n % 8 == 0 { 0 } else { 1 };
    let mut out: Vec<u8> = Vec::new();
    let mut j: usize = 0;
    while j < count
        invariant
            n == bits.len(),
            bits == bits_of(*b),
            count == byte_count(n as int),
            j <= count,
            out@.len() == j,
            forall|jj: int, c: int| 0 <= jj < j && 0 <= c < 8 ==> #[trigger] byte_bit(out@[jj], c) == (8 * jj + c < n && bits[8 * jj + c]),
        decreases count - j,
    {
        let mut x: u8 = 0;
        let mut k: u8 = 0;
        assert(0u8 < (1u8 << 0u8)) by (bit_vector);
        while k < 8
            invariant
                n == bits.len(),
                bits == bits_of(*b),
                j < count,
                count == byte_count(n as int),
                k <= 8,
                k < 8 ==> x < (1u8 << k),
                forall|c: int| 0 <= c < k ==> #[trigger] byte_bit(x, c) == (8 * j + c < n && bits[8 * j + c]),
            decreases 8 - k,
        {
            let idx = 8 * j + k as usize;
            let v = idx < n && bitmap_get(b, idx);
            let nx: u8 = if v {
                x | (1u8 << k)
            } else {
                x
            };
            proof {
                lemma_set_bit(x, k, v, 0);
                assert forall|c: int| 0 <= c < k + 1 implies #[trigger] byte_bit(nx, c) == (8 * j + c < n && bits[8 * j + c]) by {
                    lemma_set_bit(x, k, v, c as u8);
                }
            }
            x = nx;
            k = k + 1;
        }
        out.push(x);
        proof {
            assert forall|jj: int, c: int| 0 <= jj < j + 1 && 0 <= c < 8 implies #[trigger] byte_bit(out@[jj], c) == (8 * jj + c < n && bits[8 * jj + c]) by {
                if jj == j {
                    assert(out@[jj] == x);
                }
            }
        }
        j = j + 1;
    }
    out
}

/// Raw entries written by `to_raw` restore the pool they were taken from.
pub proof fn lemma_raw_round_trip(e: Pool, raw: Seq<(Seq<char>, Seq<u8>)>)
    requires
        pool_wf(e),
        forall|i: int| 0 <= i < e.len() ==> host_count((#[trigger] cidr_of(e[i].0)->0).1) <= usize::MAX,
        raw.len() == e.len(),
        forall|i: int| 0 <= i < raw.len() ==> (#[trigger] raw[i]).0 == e[i].0 && packs(raw[i].1, bits_at(e, i)),
    ensures
        restorable(raw),
        restored(raw) == e,
{
    assert forall|i: int, j: int| 0 <= i < j < raw.len() implies #[trigger] raw[i].0 != #[trigger] raw[j].0 by {
        assert(e[i].0 != e[j].0);
    }
    assert forall|i: int| 0 <= i < raw.len() implies (#[trigger] cidr_of(raw[i].0)) is Some && host_count(
        (cidr_of(raw[i].0)->0).1,
    ) <= usize::MAX && raw[i].1.len() == byte_count(host_count((cidr_of(raw[i].0)->0).1)) by {
        assert(raw[i].0 == e[i].0);
        assert(cidr_of(e[i].0) is Some);
    }
    assert forall|i: int| 0 <= i < raw.len() implies #[trigger] restored(raw)[i] == e[i] by {
        lemma_unpack_packs(raw[i].1, bits_at(e, i));
        assert(e[i] == (e[i].0, bits_at(e, i)));
    }
    assert(restored(raw) =~= e);
}

} // verus!

verus! {

/// The first network of an empty manager: taking its subnet in and then
/// reserving its gateway leaves one bitmap with bit 0 alone set, and hands
/// out the block's first host address.
pub proof fn lemma_first_subnet_gateway(cidr: Seq<char>)
    requires
        cidr_of(cidr) is Some,
        (cidr_of(cidr)->0).1 <= 30,
    ensures
        ({
            let p = (cidr_of(cidr)->0).1;
            let (p1, added) = add_spec(Seq::empty(), cidr);
            let (p2, gateway) = allocate_at_spec(p1, cidr, 0);
            &&& added is Ok
            &&& gateway == Ok::<u32, IpamError>(host_ip(cidr, 0))
            &&& p2 == seq![(cidr, Seq::new(host_count(p) as nat, |i: int| i == 0))]
        }),
{
    let p = (cidr_of(cidr)->0).1;
    lemma_pow2_mono(2, (32 - p) as nat);
    lemma_pow2_mono((32 - p) as nat, 32);
    lemma_pow2_32();
    reveal_with_fuel(pow2, 3);
    let e = Seq::<(Seq<char>, Seq<bool>)>::empty();
    assert(find(e, cidr) == -1);
    let n = host_count(p) as nat;
    let p1 = e.push((cidr, Seq::new(n, |i: int| false)));
    assert(p1.drop_last() == e);
    assert(find(p1, cidr) == 0);
    assert(Seq::new(n, |i: int| false).update(0, true) =~= Seq::new(n, |i: int| i == 0));
}

} // verus!
