use vstd::prelude::*;

verus! {

/// The four bytes of `n`, most significant first.
///
/// Opaque, so that proofs about whole frames need not look into it; to
/// compute with it, say `reveal(be_bytes)`.
#[verifier::opaque]
pub open spec fn be_bytes(n: u32) -> Seq<u8> {
    seq![
        (n / 0x100_0000) as u8,
        (n / 0x1_0000 % 0x100) as u8,
        (n / 0x100 % 0x100) as u8,
        (n % 0x100) as u8,
    ]
}

/// The number that four bytes spell, most significant first.
///
/// Opaque, like `be_bytes`; to compute with it, say `reveal(be_value)`.
#[verifier::opaque]
pub open spec fn be_value(bytes: Seq<u8>) -> u32
    recommends
        bytes.len() == 4,
{
    (bytes[0] * 0x100_0000 + bytes[1] * 0x1_0000 + bytes[2] * 0x100 + bytes[3]) as u32
}

/// What the length field holds for `len` bytes of data: `len` itself
/// while it fits in 32 bits, and its low 32 bits beyond that.
pub open spec fn length_field(len: nat) -> u32 {
    (len % 0x1_0000_0000) as u32
}

/// Reading back what was written gives the number that was written.
pub proof fn lemma_be_value_of_bytes(n: u32)
    ensures
        be_bytes(n).len() == 4,
        be_value(be_bytes(n)) == n,
{
    reveal(be_bytes);
    reveal(be_value);
}

/// Writing what was read gives the bytes that were read.
pub proof fn lemma_be_bytes_of_value(bytes: Seq<u8>)
    requires
        bytes.len() == 4,
    ensures
        be_bytes(be_value(bytes)) == bytes,
{
    reveal(be_bytes);
    reveal(be_value);
    let (b0, b1, b2, b3) = (bytes[0], bytes[1], bytes[2], bytes[3]);
    let n: int = b0 * 0x100_0000 + b1 * 0x1_0000 + b2 * 0x100 + b3;
    assert(0 <= n < 0x1_0000_0000);
    assert(n / 0x100_0000 == b0 && n / 0x1_0000 % 0x100 == b1 && n / 0x100 % 0x100 == b2 && n
        % 0x100 == b3) by {
        lemma_digits(b0 as int, b1 as int, b2 as int, b3 as int);
    }
    assert(be_bytes(be_value(bytes)) =~= bytes);
}

proof fn lemma_digits(b0: int, b1: int, b2: int, b3: int)
    requires
        0 <= b0 < 256,
        0 <= b1 < 256,
        0 <= b2 < 256,
        0 <= b3 < 256,
    ensures
        ({
            let n = b0 * 0x100_0000 + b1 * 0x1_0000 + b2 * 0x100 + b3;
            &&& n / 0x100_0000 == b0
            &&& n / 0x1_0000 % 0x100 == b1
            &&& n / 0x100 % 0x100 == b2
            &&& n % 0x100 == b3
        }),
{
    let n = b0 * 0x100_0000 + b1 * 0x1_0000 + b2 * 0x100 + b3;
    let h = b0 * 0x100 + b1;
    let m = h * 0x100 + b2;
    assert(n == m * 0x100 + b3);
    assert(n / 0x100 == m);
    assert(n % 0x100 == b3);
    assert(m / 0x100 == h);
    assert(m % 0x100 == b2);
    assert(h / 0x100 == b0);
    assert(h % 0x100 == b1);
    assert(n / 0x1_0000 == h);
    assert(n / 0x100_0000 == b0);
}

/// Different bytes spell different numbers.
pub proof fn lemma_be_value_injective(a: Seq<u8>, b: Seq<u8>)
    requires
        a.len() == 4,
        b.len() == 4,
        be_value(a) == be_value(b),
    ensures
        a == b,
{
    lemma_be_bytes_of_value(a);
    lemma_be_bytes_of_value(b);
}

/// Writes `n` as four bytes, most significant first.
pub fn to_be_bytes(n: u32) -> (r: [u8; 4])
    ensures
        r@ == be_bytes(n),
{
    let r: [u8; 4] = [
        (n / 0x100_0000) as u8,
        (n / 0x1_0000 % 0x100) as u8,
        (n / 0x100 % 0x100) as u8,
        (n % 0x100) as u8,
    ];
    proof {
        reveal(be_bytes);
    }
    assert(r@ =~= be_bytes(n));
    r
}

/// Reads the number that the four bytes at `at` spell.
pub fn read_be(bytes: &[u8], at: usize) -> (r: u32)
    requires
        at + 4 <= bytes@.len(),
    ensures
        r == be_value(bytes@.subrange(at as int, at + 4)),
{
    let b0: u32 = bytes[at] as u32;
    let b1: u32 = bytes[at + 1] as u32;
    let b2: u32 = bytes[at + 2] as u32;
    let b3: u32 = bytes[at + 3] as u32;
    proof {
        reveal(be_value);
    }
    b0 * 0x100_0000 + b1 * 0x1_0000 + b2 * 0x100 + b3
}

/// Appends every byte of `more` to `out`.
pub fn append_bytes(out: &mut Vec<u8>, more: &[u8])
    ensures
        final(out)@ == old(out)@ + more@,
{
    let mut i: usize = 0;
    while i < more.len()
        invariant
            i <= more@.len(),
            out@ == old(out)@ + more@.take(i as int),
        decreases more@.len() - i,
    {
        out.push(more[i]);
        assert(more@.take(i + 1) =~= more@.take(i as int).push(more@[i as int]));
        i += 1;
    }
    assert(more@.take(more@.len() as int) =~= more@);
}

} // verus!
