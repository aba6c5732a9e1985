use vstd::prelude::*;

verus! {

/// Number of addresses covered by `bits` host bits.
pub open spec fn span(bits: nat) -> nat
    decreases bits,
{
    if bits == 0 {
        1
    } else {
        2 * span((bits - 1) as nat)
    }
}

/// One past the largest IPv4 address.
pub open spec fn address_space() -> nat {
    0x1_0000_0000
}

pub proof fn lemma_span_monotone(a: nat, b: nat)
    requires
        a <= b,
    ensures
        1 <= span(a) <= span(b),
    decreases b,
{
    if b > a {
        lemma_span_monotone(a, (b - 1) as nat);
    } else if a > 0 {
        lemma_span_monotone((a - 1) as nat, (a - 1) as nat);
    }
}

pub proof fn lemma_span_full()
    ensures
        span(32) == address_space(),
{
    reveal_with_fuel(span, 33);
}

/// An IPv4 block: a base address and a prefix length, as in `10.0.0.0/24`.
#[derive(Clone, Copy, Debug, PartialEq, Eq, Structural)]
pub struct Ipv4Range {
    pub base: u32,
    pub prefix: u8,
}

impl Ipv4Range {
    /// How many addresses the block holds.
    pub open spec fn size(self) -> nat {
        span((32 - self.prefix) as nat)
    }

    /// The first address of the block.
    pub open spec fn lo(self) -> int {
        self.base as int
    }

    /// One past the last address of the block.
    pub open spec fn hi(self) -> int {
        self.base + self.size()
    }

    /// The prefix is at most 32 and the block ends inside the address space.
    pub open spec fn wf(self) -> bool {
        self.prefix <= 32 && self.hi() <= address_space()
    }

    pub open spec fn spec_contains(self, a: int) -> bool {
        self.lo() <= a < self.hi()
    }

    /// The addresses given to hosts: all but the first, the second (the
    /// gateway's) and the last.
    pub open spec fn is_host(self, a: int) -> bool {
        self.lo() + 1 < a < self.hi() - 1
    }

    pub open spec fn disjoint(self, other: Ipv4Range) -> bool {
        self.hi() <= other.lo() || other.hi() <= self.lo()
    }

    /// A block from a base address and a prefix length; `None` where the
    /// prefix exceeds 32 or the block runs past the last address.
    pub fn new(base: u32, prefix: u8) -> (r: Option<Ipv4Range>)
        ensures
            r matches Some(v) ==> v.wf() && v.base == base && v.prefix == prefix,
            r is None <==> !(Ipv4Range { base, prefix }).wf(),
    {
        if prefix > 32 {
            return None;
        }
        let s = size_of_prefix(prefix);
        if base as u64 + s <= 0x1_0000_0000u64 {
            Some(Ipv4Range { base, prefix })
        } else {
            None
        }
    }

    /// How many addresses the block holds.
    pub fn len(&self) -> (r: u64)
        requires
            self.wf(),
        ensures
            r == self.size(),
    {
        size_of_prefix(self.prefix)
    }

    pub fn contains(&self, a: u32) -> (r: bool)
        requires
            self.wf(),
        ensures
            r == self.spec_contains(a as int),
    {
        let s = size_of_prefix(self.prefix);
        self.base <= a && (a as u64) < self.base as u64 + s
    }

    /// Whether `a` is a host address of the block.
    pub fn has_host(&self, a: u32) -> (r: bool)
        requires
            self.wf(),
        ensures
            r == self.is_host(a as int),
    {
        let s = size_of_prefix(self.prefix);
        (self.base as u64) + 1 < a as u64 && (a as u64) + 1 < self.base as u64 + s
    }

    pub fn is_disjoint(&self, other: &Ipv4Range) -> (r: bool)
        requires
            self.wf(),
            other.wf(),
        ensures
            r == self.disjoint(*other),
    {
        let a = self.base as u64 + size_of_prefix(self.prefix);
        let b = other.base as u64 + size_of_prefix(other.prefix);
        a <= other.base as u64 || b <= self.base as u64
    }
}

/// The number of addresses in a block with this prefix length.
fn size_of_prefix(prefix: u8) -> (r: u64)
    requires
        prefix <= 32,
    ensures
        r == span((32 - prefix) as nat),
        1 <= r <= address_space(),
{
    let bits: u8 = 32 - prefix;
    let mut s: u64 = 1;
    let mut i: u8 = 0;
    proof {
        lemma_span_full();
    }
    while i < bits
        invariant
            bits <= 32,
            i <= bits,
            s == span(i as nat),
            span(32) == address_space(),
        decreases bits - i,
    {
        proof {
            lemma_span_monotone((i + 1) as nat, 32);
        }
        s = s * 2;
        i = i + 1;
    }
    proof {
        lemma_span_monotone(bits as nat, 32);
    }
    s
}

} // verus!
