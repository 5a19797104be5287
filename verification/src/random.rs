//! The xorshift generator (shift triple 13, 17, 5 on 32-bit words).
use vstd::prelude::*;

verus! {

/// One xorshift step: the state that follows `x`.
pub open spec fn xorshift(x: u32) -> u32 {
    let a = x ^ (x << 13u32);
    let b = a ^ (a >> 17u32);
    b ^ (b << 5u32)
}

/// The state after `n` steps from `seed`.
pub open spec fn xorshift_iter(seed: u32, n: nat) -> u32
    decreases n,
{
    if n == 0 {
        seed
    } else {
        xorshift(xorshift_iter(seed, (n - 1) as nat))
    }
}

/// An endless stream of pseudo-random words; each value is the next state.
pub struct Random {
    value: u32,
}

impl Random {
    /// The current state: the last value handed out, or the seed.
    pub closed spec fn state(&self) -> u32 {
        self.value
    }

    /// Advances the state by one step and returns it.
    pub fn next(&mut self) -> (r: u32)
        ensures
            r == xorshift(old(self).state()),
            final(self).state() == r,
    {
        let mut value = self.value;
        value = value ^ (value << 13u32);
        value = value ^ (value >> 17u32);
        value = value ^ (value << 5u32);
        self.value = value;
        value
    }

    /// The next `n` values, in order.
    pub fn take(&mut self, n: usize) -> (v: Vec<u32>)
        ensures
            v.len() == n,
            forall|k: int| 0 <= k < n ==> #[trigger] v[k] == xorshift_iter(old(self).state(), (k + 1) as nat),
            final(self).state() == xorshift_iter(old(self).state(), n as nat),
    {
        let mut v: Vec<u32> = Vec::new();
        let mut k: usize = 0;
        while k < n
            invariant
                k <= n,
                v.len() == k,
                self.state() == xorshift_iter(old(self).state(), k as nat),
                forall|j: int| 0 <= j < k ==> #[trigger] v[j] == xorshift_iter(old(self).state(), (j + 1) as nat),
            decreases n - k,
        {
            let value = self.next();
            v.push(value);
            k = k + 1;
        }
        v
    }
}

/// One step is the three shift-xors on 32-bit words: left 13, right 17,
/// left 5, each applied to the result of the one before.
pub proof fn lemma_xorshift_bits(x: u32)
    ensures
        ({
            let a: u32 = x ^ ((x << 13u32) & 0xffff_ffffu32);
            let b: u32 = a ^ (a >> 17u32);
            xorshift(x) == b ^ ((b << 5u32) & 0xffff_ffffu32)
        }),
{
    assert(({
        let a: u32 = x ^ ((x << 13u32) & 0xffff_ffffu32);
        let b: u32 = a ^ (a >> 17u32);
        xorshift(x) == b ^ ((b << 5u32) & 0xffff_ffffu32)
    })) by (bit_vector);
}

/// A step is linear over xor: stepping `x ^ y` gives the xor of stepping
/// each, so no bit of the output depends on anything but the xor of input bits.
pub proof fn lemma_xorshift_linear(x: u32, y: u32)
    ensures
        xorshift(x ^ y) == xorshift(x) ^ xorshift(y),
{
    assert(xorshift(x ^ y) == xorshift(x) ^ xorshift(y)) by (bit_vector);
}

/// Each value of the stream is one step after the one before it, and
/// stepping `m` then `n` times is stepping `m + n` times.
pub proof fn lemma_xorshift_iter_steps(seed: u32, m: nat, n: nat)
    ensures
        xorshift_iter(seed, m + 1) == xorshift(xorshift_iter(seed, m)),
        xorshift_iter(xorshift_iter(seed, m), n) == xorshift_iter(seed, m + n),
    decreases n,
{
    if n > 0 {
        lemma_xorshift_iter_steps(seed, m, (n - 1) as nat);
        assert(xorshift_iter(seed, m + n) == xorshift(xorshift_iter(seed, (m + n - 1) as nat)));
    }
}

/// Zero is a fixed point: a generator seeded with 0 yields only zeros.
pub proof fn lemma_xorshift_zero()
    ensures
        xorshift(0) == 0,
{
    assert(xorshift(0) == 0) by (bit_vector);
}

/// A step maps distinct states to distinct states, so no two seeds merge
/// and a nonzero state never becomes zero.
pub proof fn lemma_xorshift_injective(x: u32, y: u32)
    ensures
        x != y ==> xorshift(x) != xorshift(y),
        x != 0 ==> xorshift(x) != 0,
{
    assert(x != y ==> xorshift(x) != xorshift(y)) by (bit_vector);
    assert(x != 0 ==> xorshift(x) != 0) by (bit_vector);
}

/// From a nonzero seed every later state is nonzero.
pub proof fn lemma_xorshift_iter_nonzero(seed: u32, n: nat)
    requires
        seed != 0,
    ensures
        xorshift_iter(seed, n) != 0,
    decreases n,
{
    if n > 0 {
        lemma_xorshift_iter_nonzero(seed, (n - 1) as nat);
        lemma_xorshift_injective(xorshift_iter(seed, (n - 1) as nat), 0);
    }
}

/// A generator whose first value is one xorshift step from `seed`.
pub fn random(seed: u32) -> (r: Random)
    ensures
        r.state() == seed,
{
    Random { value: seed }
}

} // verus!
