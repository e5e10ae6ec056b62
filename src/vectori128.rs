use vstd::prelude::*;

verus! {

/// A 128-bit pattern, held as sixteen bytes, with no lane arithmetic.
#[derive(Copy, Clone, Debug)]
pub struct Vec128b {
    bytes: [u8; 16],
}

impl View for Vec128b {
    type V = Seq<u8>;

    closed spec fn view(&self) -> Seq<u8> {
        self.bytes@
    }
}

/// A register holds sixteen bytes.
pub broadcast proof fn lemma_vec128b_len(v: Vec128b)
    ensures
        #[trigger] v@.len() == 16,
{
}

/// `d` with its first sixteen elements replaced by those of `v`.
pub open spec fn overwrite_bytes(v: Seq<u8>, d: Seq<u8>) -> Seq<u8> {
    Seq::new(d.len(), |i: int| if i < 16 { v[i] } else { d[i] })
}

/// Byte-wise AND.
pub open spec fn and_bytes(a: Seq<u8>, b: Seq<u8>) -> Seq<u8> {
    Seq::new(16, |i: int| a[i] & b[i])
}

/// Byte-wise OR.
pub open spec fn or_bytes(a: Seq<u8>, b: Seq<u8>) -> Seq<u8> {
    Seq::new(16, |i: int| a[i] | b[i])
}

/// Byte-wise exclusive OR.
pub open spec fn xor_bytes(a: Seq<u8>, b: Seq<u8>) -> Seq<u8> {
    Seq::new(16, |i: int| a[i] ^ b[i])
}

/// Every bit inverted.
pub open spec fn not_bytes(a: Seq<u8>) -> Seq<u8> {
    Seq::new(16, |i: int| !a[i])
}

/// Byte-wise `a & !b`.
pub open spec fn andnot_bytes(a: Seq<u8>, b: Seq<u8>) -> Seq<u8> {
    Seq::new(16, |i: int| a[i] & !b[i])
}

/// The first pattern whose bytes are `s`; for a pattern `r` with bytes `s`,
/// that is `r` itself.
proof fn lemma_vec128b_view_determines(r: Vec128b, s: Seq<u8>)
    requires
        r@ == s,
    ensures
        (choose|q: Vec128b| q@ == s) == r,
{
    assert(exists|q: Vec128b| q@ == s) by {
        assert(r@ == s);
    }
    let c = choose|q: Vec128b| q@ == s;
    assert(c.bytes =~= r.bytes) by {
        assert forall|i: int| 0 <= i < 16 implies c.bytes[i] == r.bytes[i] by {
            assert(c@[i] == r@[i]);
        }
    }
}

impl Vec128b {
    /// Number of bits.
    pub const LEN: usize = 128;

    /// The all-zero pattern.
    pub fn new() -> (r: Self)
        ensures
            r@ == Seq::new(16, |i: int| 0u8),
    {
        let r = Vec128b { bytes: [0u8; 16] };
        assert(r@ =~= Seq::new(16, |i: int| 0u8));
        r
    }

    /// Replaces the pattern by the first sixteen bytes of `src`.
    pub fn load(&mut self, src: &[u8])
        requires
            src@.len() >= 16,
        ensures
            final(self)@ == src@.subrange(0, 16),
    {
        let mut i: usize = 0;
        while i < 16
            invariant
                i <= 16,
                src@.len() >= 16,
                forall|j: int| 0 <= j < i ==> self.bytes[j] == src@[j],
            decreases 16 - i,
        {
            self.bytes[i] = src[i];
            i += 1;
        }
        assert(self@ =~= src@.subrange(0, 16));
    }

    /// As `load`; callers use it where the source starts on a 16-byte boundary.
    pub fn load_aligned(&mut self, src: &[u8])
        requires
            src@.len() >= 16,
        ensures
            final(self)@ == src@.subrange(0, 16),
    {
        self.load(src);
    }

    /// Writes the sixteen bytes to the start of `dst`, leaving the rest of it.
    pub fn store(&self, dst: &mut [u8])
        requires
            old(dst)@.len() >= 16,
        ensures
            final(dst)@ == overwrite_bytes(self@, old(dst)@),
    {
        let mut i: usize = 0;
        while i < 16
            invariant
                i <= 16,
                dst@.len() == old(dst)@.len(),
                old(dst)@.len() >= 16,
                forall|j: int| 0 <= j < i ==> dst@[j] == self@[j],
                forall|j: int| i <= j < dst@.len() ==> dst@[j] == old(dst)@[j],
            decreases 16 - i,
        {
            dst[i] = self.bytes[i];
            i += 1;
        }
        assert(dst@ =~= overwrite_bytes(self@, old(dst)@));
    }

    /// As `store`; callers use it where the destination starts on a 16-byte boundary.
    pub fn store_aligned(&self, dst: &mut [u8])
        requires
            old(dst)@.len() >= 16,
        ensures
            final(dst)@ == overwrite_bytes(self@, old(dst)@),
    {
        self.store(dst);
    }
}

impl Default for Vec128b {
    fn default() -> (r: Self)
        ensures
            r@ == Seq::new(16, |i: int| 0u8),
    {
        Vec128b::new()
    }
}

impl core::ops::BitAnd for Vec128b {
    type Output = Self;

    /// Bitwise AND.
    fn bitand(self, other: Self) -> (r: Self)
        ensures
            r@ == and_bytes(self@, other@),
    {
        let mut out = [0u8; 16];
        let mut i: usize = 0;
        while i < 16
            invariant
                i <= 16,
                forall|j: int| 0 <= j < i ==> out[j] == self@[j] & other@[j],
            decreases 16 - i,
        {
            out[i] = self.bytes[i] & other.bytes[i];
            i += 1;
        }
        let r = Vec128b { bytes: out };
        assert(r@ =~= and_bytes(self@, other@));
        proof {
            lemma_vec128b_view_determines(r, and_bytes(self@, other@));
        }
        r
    }
}

impl vstd::std_specs::ops::BitAndSpecImpl for Vec128b {
    open spec fn obeys_bitand_spec() -> bool {
        true
    }

    open spec fn bitand_req(self, rhs: Vec128b) -> bool {
        true
    }

    open spec fn bitand_spec(self, rhs: Vec128b) -> Vec128b {
        choose|r: Vec128b| r@ == and_bytes(self@, rhs@)
    }
}

impl core::ops::BitOr for Vec128b {
    type Output = Self;

    /// Bitwise OR.
    fn bitor(self, other: Self) -> (r: Self)
        ensures
            r@ == or_bytes(self@, other@),
    {
        let mut out = [0u8; 16];
        let mut i: usize = 0;
        while i < 16
            invariant
                i <= 16,
                forall|j: int| 0 <= j < i ==> out[j] == self@[j] | other@[j],
            decreases 16 - i,
        {
            out[i] = self.bytes[i] | other.bytes[i];
            i += 1;
        }
        let r = Vec128b { bytes: out };
        assert(r@ =~= or_bytes(self@, other@));
        proof {
            lemma_vec128b_view_determines(r, or_bytes(self@, other@));
        }
        r
    }
}

impl vstd::std_specs::ops::BitOrSpecImpl for Vec128b {
    open spec fn obeys_bitor_spec() -> bool {
        true
    }

    open spec fn bitor_req(self, rhs: Vec128b) -> bool {
        true
    }

    open spec fn bitor_spec(self, rhs: Vec128b) -> Vec128b {
        choose|r: Vec128b| r@ == or_bytes(self@, rhs@)
    }
}

impl core::ops::BitXor for Vec128b {
    type Output = Self;

    /// Bitwise exclusive OR.
    fn bitxor(self, other: Self) -> (r: Self)
        ensures
            r@ == xor_bytes(self@, other@),
    {
        let mut out = [0u8; 16];
        let mut i: usize = 0;
        while i < 16
            invariant
                i <= 16,
                forall|j: int| 0 <= j < i ==> out[j] == self@[j] ^ other@[j],
            decreases 16 - i,
        {
            out[i] = self.bytes[i] ^ other.bytes[i];
            i += 1;
        }
        let r = Vec128b { bytes: out };
        assert(r@ =~= xor_bytes(self@, other@));
        proof {
            lemma_vec128b_view_determines(r, xor_bytes(self@, other@));
        }
        r
    }
}

impl vstd::std_specs::ops::BitXorSpecImpl for Vec128b {
    open spec fn obeys_bitxor_spec() -> bool {
        true
    }

    open spec fn bitxor_req(self, rhs: Vec128b) -> bool {
        true
    }

    open spec fn bitxor_spec(self, rhs: Vec128b) -> Vec128b {
        choose|r: Vec128b| r@ == xor_bytes(self@, rhs@)
    }
}

impl core::ops::Not for Vec128b {
    type Output = Self;

    /// Every bit inverted.
    fn not(self) -> (r: Self)
        ensures
            r@ == not_bytes(self@),
    {
        let mut out = [0u8; 16];
        let mut i: usize = 0;
        while i < 16
            invariant
                i <= 16,
                forall|j: int| 0 <= j < i ==> out[j] == !self@[j],
            decreases 16 - i,
        {
            let x = self.bytes[i];
            assert(x ^ 0xFFu8 == !x) by (bit_vector);
            out[i] = x ^ 0xFF;
            i += 1;
        }
        let r = Vec128b { bytes: out };
        assert(r@ =~= not_bytes(self@));
        proof {
            lemma_vec128b_view_determines(r, not_bytes(self@));
        }
        r
    }
}

impl vstd::std_specs::ops::NotSpecImpl for Vec128b {
    open spec fn obeys_not_spec() -> bool {
        true
    }

    open spec fn not_req(self) -> bool {
        true
    }

    open spec fn not_spec(self) -> Vec128b {
        choose|r: Vec128b| r@ == not_bytes(self@)
    }
}

impl core::ops::BitAndAssign for Vec128b {
    fn bitand_assign(&mut self, other: Self)
        ensures
            final(self)@ == and_bytes(old(self)@, other@),
    {
        *self = *self & other;
    }
}

impl core::ops::BitOrAssign for Vec128b {
    fn bitor_assign(&mut self, other: Self)
        ensures
            final(self)@ == or_bytes(old(self)@, other@),
    {
        *self = *self | other;
    }
}

impl core::ops::BitXorAssign for Vec128b {
    fn bitxor_assign(&mut self, other: Self)
        ensures
            final(self)@ == xor_bytes(old(self)@, other@),
    {
        *self = *self ^ other;
    }
}

/// `a & !b`, bit by bit.
pub fn andnot(a: Vec128b, b: Vec128b) -> (r: Vec128b)
    ensures
        r@ == andnot_bytes(a@, b@),
{
    let r = a & core::ops::Not::not(b);
    assert(r@ =~= andnot_bytes(a@, b@));
    r
}

/// Bytes `k` and `k + 8` of `s` both equal `x`, for every `k < n`.
pub open spec fn halves_equal_to(s: Seq<u8>, n: int, x: u8) -> bool {
    forall|k: int| 0 <= k < n ==> #[trigger] s[k] == x && s[k + 8] == x
}

/// One more pair of bytes equal to `x` extends the prefix by one.
proof fn lemma_halves_step(s: Seq<u8>, n: int, x: u8)
    requires
        halves_equal_to(s, n, x),
        s[n] == x,
        s[n + 8] == x,
    ensures
        halves_equal_to(s, n + 1, x),
{
    assert forall|k: int| 0 <= k < n + 1 implies #[trigger] s[k] == x && s[k + 8] == x by {
        if k < n {
            assert(s[k] == x && s[k + 8] == x);
        } else {
            assert(k == n);
        }
    }
    assert(halves_equal_to(s, n + 1, x));
}

/// Every byte of `s` equals `x` once both halves do.
proof fn lemma_halves_cover(s: Seq<u8>, x: u8)
    requires
        halves_equal_to(s, 8, x),
    ensures
        forall|k: int| 0 <= k < 16 ==> s[k] == x,
{
    assert forall|k: int| 0 <= k < 16 implies s[k] == x by {
        if k >= 8 {
            assert(s[k - 8] == x);
            assert(s[(k - 8) + 8] == x);
        }
    }
}

/// True iff every one of the 128 bits is 1. The two 64-bit halves are folded
/// together with AND and the fold compared with all ones.
pub fn horizontal_and(a: Vec128b) -> (r: bool)
    ensures
        r == (forall|i: int| 0 <= i < 16 ==> a@[i] == 0xFFu8),
{
    let mut fold: u8 = 0xFF;
    let mut i: usize = 0;
    while i < 8
        invariant
            i <= 8,
            a@.len() == 16,
            fold == 0xFFu8 ==> halves_equal_to(a@, i as int, 0xFFu8),
            fold != 0xFFu8 ==> exists|j: int| 0 <= j < 16 && #[trigger] a@[j] != 0xFFu8,
        decreases 8 - i,
    {
        let x = a.bytes[i];
        let y = a.bytes[i + 8];
        assert(x == a@[i as int] && y == a@[i + 8]);
        assert(((fold & (x & y)) == 0xFFu8) == (fold == 0xFFu8 && x == 0xFFu8 && y == 0xFFu8))
            by (bit_vector);
        let ghost before = fold;
        fold = fold & (x & y);
        proof {
            if fold == 0xFFu8 {
                lemma_halves_step(a@, i as int, 0xFFu8);
            } else if before == 0xFFu8 {
                if x != 0xFFu8 {
                    assert(a@[i as int] != 0xFFu8);
                } else {
                    assert(a@[i + 8] != 0xFFu8);
                }
            }
        }
        i += 1;
    }
    proof {
        if fold == 0xFFu8 {
            lemma_halves_cover(a@, 0xFFu8);
        }
    }
    fold == 0xFF
}

/// True iff at least one of the 128 bits is 1. The two 64-bit halves are
/// folded together with OR and the fold compared with zero.
pub fn horizontal_or(a: Vec128b) -> (r: bool)
    ensures
        r == (exists|i: int| 0 <= i < 16 && a@[i] != 0u8),
{
    let mut fold: u8 = 0;
    let mut i: usize = 0;
    while i < 8
        invariant
            i <= 8,
            a@.len() == 16,
            fold == 0u8 ==> halves_equal_to(a@, i as int, 0u8),
            fold != 0u8 ==> exists|j: int| 0 <= j < 16 && #[trigger] a@[j] != 0u8,
        decreases 8 - i,
    {
        let x = a.bytes[i];
        let y = a.bytes[i + 8];
        assert(x == a@[i as int] && y == a@[i + 8]);
        assert(((fold | (x | y)) == 0u8) == (fold == 0u8 && x == 0u8 && y == 0u8)) by (bit_vector);
        let ghost before = fold;
        fold = fold | (x | y);
        proof {
            if fold == 0u8 {
                lemma_halves_step(a@, i as int, 0u8);
            } else if before == 0u8 {
                if x != 0u8 {
                    assert(a@[i as int] != 0u8);
                } else {
                    assert(a@[i + 8] != 0u8);
                }
            }
        }
        i += 1;
    }
    proof {
        if fold == 0u8 {
            lemma_halves_cover(a@, 0u8);
        }
    }
    fold != 0
}

/// Sixteen signed 8-bit lanes held in one 128-bit value.
#[derive(Copy, Clone, Debug)]
pub struct Vec16c {
    lanes: [i8; 16],
}

impl View for Vec16c {
    type V = Seq<i8>;

    closed spec fn view(&self) -> Seq<i8> {
        self.lanes@
    }
}

/// The first vector whose lanes are `s`; for a vector `r` with lanes `s`, that
/// is `r` itself.
proof fn lemma_vec16c_view_determines(r: Vec16c, s: Seq<i8>)
    requires
        r@ == s,
    ensures
        (choose|q: Vec16c| q@ == s) == r,
{
    assert(exists|q: Vec16c| q@ == s) by {
        assert(r@ == s);
    }
    let c = choose|q: Vec16c| q@ == s;
    assert(c.lanes =~= r.lanes) by {
        assert forall|i: int| 0 <= i < 16 implies c.lanes[i] == r.lanes[i] by {
            assert(c@[i] == r@[i]);
        }
    }
}

/// A lane vector holds sixteen lanes.
pub broadcast proof fn lemma_vec16c_len(v: Vec16c)
    ensures
        #[trigger] v@.len() == 16,
{
}

/// Lanes `0..n` of `s`, with every later lane zero.
pub open spec fn first_lanes(n: int, s: Seq<i8>) -> Seq<i8> {
    Seq::new(16, |i: int| if i < n { s[i] } else { 0i8 })
}

/// `d` with its first `min(n, 16)` elements replaced by those of `v`.
pub open spec fn overwrite_prefix(n: int, v: Seq<i8>, d: Seq<i8>) -> Seq<i8> {
    Seq::new(d.len(), |i: int| if i < n && i < 16 { v[i] } else { d[i] })
}

/// The number of lanes that a partial access of `n` lanes touches.
pub open spec fn clamp16(n: int) -> int {
    if n < 16 { n } else { 16 }
}

impl Vec16c {
    /// Number of lanes.
    pub const LEN: usize = 16;

    /// The all-zero vector.
    pub fn new() -> (r: Self)
        ensures
            r@ == Seq::new(16, |i: int| 0i8),
    {
        let r = Vec16c { lanes: [0i8; 16] };
        assert(r@ =~= Seq::new(16, |i: int| 0i8));
        r
    }

    /// Every lane set to `a`.
    pub fn set_value(a: i8) -> (r: Self)
        ensures
            r@ == Seq::new(16, |i: int| a),
    {
        let r = Vec16c { lanes: [a; 16] };
        assert(r@ =~= Seq::new(16, |i: int| a));
        r
    }

    /// Lane `i` set to `a[i]`.
    pub fn set_values(a: [i8; 16]) -> (r: Self)
        ensures
            r@ == a@,
    {
        Vec16c { lanes: a }
    }

    /// Replaces the lanes by the first sixteen elements of `src`.
    pub fn load(&mut self, src: &[i8])
        requires
            src@.len() >= 16,
        ensures
            final(self)@ == src@.subrange(0, 16),
    {
        let mut i: usize = 0;
        while i < 16
            invariant
                i <= 16,
                src@.len() >= 16,
                forall|j: int| 0 <= j < i ==> self.lanes[j] == src@[j],
            decreases 16 - i,
        {
            self.lanes[i] = src[i];
            i += 1;
        }
        assert(self@ =~= src@.subrange(0, 16));
    }

    /// As `load`; callers use it where the source starts on a 16-byte boundary.
    pub fn load_aligned(&mut self, src: &[i8])
        requires
            src@.len() >= 16,
        ensures
            final(self)@ == src@.subrange(0, 16),
    {
        self.load(src);
    }

    /// Writes the sixteen lanes to the start of `dst`, leaving the rest of it.
    pub fn store(&self, dst: &mut [i8])
        requires
            old(dst)@.len() >= 16,
        ensures
            final(dst)@ == overwrite_prefix(16, self@, old(dst)@),
    {
        let mut i: usize = 0;
        while i < 16
            invariant
                i <= 16,
                dst@.len() == old(dst)@.len(),
                old(dst)@.len() >= 16,
                forall|j: int| 0 <= j < i ==> dst@[j] == self@[j],
                forall|j: int| i <= j < dst@.len() ==> dst@[j] == old(dst)@[j],
            decreases 16 - i,
        {
            dst[i] = self.lanes[i];
            i += 1;
        }
        assert(dst@ =~= overwrite_prefix(16, self@, old(dst)@));
    }

    /// As `store`; callers use it where the destination starts on a 16-byte boundary.
    pub fn store_aligned(&self, dst: &mut [i8])
        requires
            old(dst)@.len() >= 16,
        ensures
            final(dst)@ == overwrite_prefix(16, self@, old(dst)@),
    {
        self.store(dst);
    }

    /// Loads the first `n` elements of `src` into lanes `0..n` and zeroes the
    /// rest; reads no element of `src` past the first `min(n, 16)`.
    pub fn load_partial(&mut self, n: usize, src: &[i8])
        requires
            src@.len() >= clamp16(n as int),
        ensures
            final(self)@ == first_lanes(n as int, src@),
    {
        let m: usize = if n < 16 { n } else { 16 };
        let mut scratch = [0i8; 16];
        let mut i: usize = 0;
        while i < m
            invariant
                m == clamp16(n as int),
                i <= m,
                src@.len() >= m,
                forall|j: int| 0 <= j < i ==> scratch[j] == src@[j],
                forall|j: int| i <= j < 16 ==> scratch[j] == 0,
            decreases m - i,
        {
            scratch[i] = src[i];
            i += 1;
        }
        self.load(&scratch);
        self.cutoff(n);
        assert(self@ =~= first_lanes(n as int, src@));
    }

    /// Writes lanes `0..min(n, 16)` to the start of `dst` and nothing else.
    pub fn store_partial(&mut self, n: usize, dst: &mut [i8])
        requires
            old(dst)@.len() >= clamp16(n as int),
        ensures
            *final(self) == *old(self),
            final(dst)@ == overwrite_prefix(n as int, old(self)@, old(dst)@),
    {
        let mut scratch = [0i8; 16];
        self.store(&mut scratch);
        let m: usize = if n < 16 { n } else { 16 };
        let mut i: usize = 0;
        while i < m
            invariant
                m == clamp16(n as int),
                i <= m,
                scratch@ == self@,
                dst@.len() == old(dst)@.len(),
                dst@.len() >= m,
                forall|j: int| 0 <= j < i ==> dst@[j] == self@[j],
                forall|j: int| i <= j < dst@.len() ==> dst@[j] == old(dst)@[j],
            decreases m - i,
        {
            dst[i] = scratch[i];
            i += 1;
        }
        assert(dst@ =~= overwrite_prefix(n as int, self@, old(dst)@));
    }

    /// Zeroes every lane from index `n` on; lanes below `n` are kept.
    pub fn cutoff(&mut self, n: usize)
        ensures
            final(self)@ == first_lanes(n as int, old(self)@),
    {
        if n >= 16 {
            assert(self@ =~= first_lanes(n as int, old(self)@));
            return;
        }
        // Sixteen all-ones bytes followed by sixteen zero bytes; the window that
        // starts at `16 - n` has exactly its first `n` lanes set.
        let mut template = [0i8; 32];
        let mut k: usize = 0;
        while k < 16
            invariant
                k <= 16,
                forall|j: int| 0 <= j < k ==> template[j] == -1i8,
                forall|j: int| k <= j < 32 ==> template[j] == 0i8,
            decreases 16 - k,
        {
            template[k] = -1;
            k += 1;
        }
        let start: usize = 16 - n;
        let mut i: usize = 0;
        while i < 16
            invariant
                n < 16,
                start == 16 - n,
                i <= 16,
                forall|j: int| 0 <= j < 16 ==> template[j] == -1i8,
                forall|j: int| 16 <= j < 32 ==> template[j] == 0i8,
                forall|j: int| 0 <= j < i ==> self.lanes[j] == (if j < n { old(self)@[j] } else { 0i8 }),
                forall|j: int| i <= j < 16 ==> self.lanes[j] == old(self)@[j],
            decreases 16 - i,
        {
            let m = template[start + i];
            let x = self.lanes[i];
            assert(m == if (i as int) < n { -1i8 } else { 0i8 });
            proof {
                lemma_and_mask(x, m);
            }
            self.lanes[i] = x & m;
            i += 1;
        }
        assert(self@ =~= first_lanes(n as int, old(self)@));
    }
}

/// A lane ANDed with an all-ones mask is kept; with a zero mask it is cleared.
proof fn lemma_and_mask(x: i8, m: i8)
    ensures
        m == -1i8 ==> x & m == x && m & x == x,
        m == 0i8 ==> x & m == 0i8 && m & x == 0i8,
{
    assert(x & -1i8 == x && -1i8 & x == x) by (bit_vector);
    assert(x & 0i8 == 0i8 && 0i8 & x == 0i8) by (bit_vector);
}

impl Vec16c {
    /// Replaces lane `index mod 16` by `value`; the other lanes are kept.
    pub fn insert(&mut self, index: isize, value: i8)
        ensures
            final(self)@ == old(self)@.update(index as int % 16, value),
            final(self)@.len() == 16,
            forall|i: int|
                0 <= i < 16 ==> #[trigger] final(self)@[i] == if i == index as int % 16 {
                    value
                } else {
                    old(self)@[i]
                },
    {
        // One all-ones byte at offset 16 of an otherwise zero template; the
        // window that starts at `16 - k` has it in lane `k` alone.
        let mut template = [0i8; 32];
        template[16] = -1;
        let k: usize = (index & 15) as usize;
        assert((index & 15) as int == index as int % 16) by (bit_vector);
        let start: usize = 16 - k;
        let mut window = [0i8; 16];
        let mut i: usize = 0;
        while i < 16
            invariant
                k < 16,
                start == 16 - k,
                i <= 16,
                forall|j: int| 0 <= j < 32 ==> template[j] == (if j == 16 { -1i8 } else { 0i8 }),
                forall|j: int| 0 <= j < i ==> window[j] == (if j == k { -1i8 } else { 0i8 }),
            decreases 16 - i,
        {
            window[i] = template[start + i];
            i += 1;
        }
        let mask = Vec16bc { lanes: window };
        *self = select(mask, Vec16c::set_value(value), *self);
        assert(self@ =~= old(self)@.update(index as int % 16, value));
    }

    /// Lane `index mod 16`.
    pub fn extract(&mut self, index: usize) -> (r: i8)
        ensures
            *final(self) == *old(self),
            r == old(self)@[index as int % 16],
    {
        let mut scratch = [0i8; 16];
        self.store(&mut scratch);
        assert(index & 15 == index % 16) by (bit_vector);
        scratch[index & 15]
    }
}

/// Sixteen boolean lanes, each held as a byte that is all zeros (false) or all
/// ones (true).
#[derive(Copy, Clone, Debug)]
pub struct Vec16bc {
    lanes: [i8; 16],
}

/// A byte that is a valid boolean lane.
pub open spec fn is_bool_lane(x: i8) -> bool {
    x == 0i8 || x == -1i8
}

impl View for Vec16bc {
    type V = Seq<bool>;

    closed spec fn view(&self) -> Seq<bool> {
        Seq::new(16, |i: int| self.lanes[i] == -1i8)
    }
}

/// A boolean-lane vector holds sixteen lanes.
pub broadcast proof fn lemma_vec16bc_len(v: Vec16bc)
    ensures
        #[trigger] v@.len() == 16,
{
}

/// Every vector type of this module has its fixed number of lanes.
pub broadcast group group_vector_lengths {
    lemma_vec128b_len,
    lemma_vec16c_len,
    lemma_vec16bc_len,
}

impl Vec16bc {
    #[verifier::type_invariant]
    spec fn well_formed(self) -> bool {
        forall|i: int| 0 <= i < 16 ==> is_bool_lane(#[trigger] self.lanes[i])
    }

    /// Lane `i` is `xi`.
    pub fn set_values(
        x0: bool,
        x1: bool,
        x2: bool,
        x3: bool,
        x4: bool,
        x5: bool,
        x6: bool,
        x7: bool,
        x8: bool,
        x9: bool,
        x10: bool,
        x11: bool,
        x12: bool,
        x13: bool,
        x14: bool,
        x15: bool,
    ) -> (r: Self)
        ensures
            r@ == seq![x0, x1, x2, x3, x4, x5, x6, x7, x8, x9, x10, x11, x12, x13, x14, x15],
    {
        let bools = [x0, x1, x2, x3, x4, x5, x6, x7, x8, x9, x10, x11, x12, x13, x14, x15];
        let mut lanes = [0i8; 16];
        let mut i: usize = 0;
        while i < 16
            invariant
                i <= 16,
                forall|j: int| 0 <= j < i ==> lanes[j] == (if bools[j] { -1i8 } else { 0i8 }),
                forall|j: int| i <= j < 16 ==> lanes[j] == 0i8,
            decreases 16 - i,
        {
            lanes[i] = -(bools[i] as i8);
            i += 1;
        }
        let r = Vec16bc { lanes };
        assert(r@ =~= seq![x0, x1, x2, x3, x4, x5, x6, x7, x8, x9, x10, x11, x12, x13, x14, x15]);
        r
    }

    /// Reinterprets `x`, whose lanes are all zeros or all ones, as booleans.
    pub fn set_value(x: Vec16c) -> (r: Self)
        requires
            forall|i: int| 0 <= i < 16 ==> is_bool_lane(#[trigger] x@[i]),
        ensures
            r@ == Seq::new(16, |i: int| x@[i] == -1i8),
    {
        assert(forall|i: int| 0 <= i < 16 ==> #[trigger] x.lanes[i] == x@[i]);
        let r = Vec16bc { lanes: x.lanes };
        assert(r@ =~= Seq::new(16, |i: int| x@[i] == -1i8));
        r
    }
}

/// Lane-wise `if s[i] { a[i] } else { b[i] }`, computed as
/// `(s & a) | (!s & b)` on the lane bytes.
pub fn select(s: Vec16bc, a: Vec16c, b: Vec16c) -> (r: Vec16c)
    ensures
        r@ == Seq::new(16, |i: int| if s@[i] { a@[i] } else { b@[i] }),
{
    proof {
        use_type_invariant(&s);
    }
    let mut out = [0i8; 16];
    let mut i: usize = 0;
    while i < 16
        invariant
            i <= 16,
            forall|j: int| 0 <= j < 16 ==> is_bool_lane(#[trigger] s.lanes[j]),
            forall|j: int| 0 <= j < i ==> out[j] == (if s@[j] { a@[j] } else { b@[j] }),
        decreases 16 - i,
    {
        let m = s.lanes[i];
        let x = a.lanes[i];
        let y = b.lanes[i];
        assert(is_bool_lane(m));
        assert(m == -1i8 ==> (m & x) | (!m & y) == x) by (bit_vector);
        assert(m == 0i8 ==> (m & x) | (!m & y) == y) by (bit_vector);
        out[i] = (m & x) | (!m & y);
        i += 1;
    }
    let r = Vec16c { lanes: out };
    assert(r@ =~= Seq::new(16, |i: int| if s@[i] { a@[i] } else { b@[i] }));
    r
}

/// `x` reduced modulo 256 into the signed 8-bit range.
pub open spec fn wrap_i8(x: int) -> i8 {
    #[verifier::truncate]
    (x as i8)
}

/// Lane-wise wrapping sum.
pub open spec fn add_lanes(a: Seq<i8>, b: Seq<i8>) -> Seq<i8> {
    Seq::new(16, |i: int| wrap_i8(a[i] + b[i]))
}

/// Lane-wise wrapping difference.
pub open spec fn sub_lanes(a: Seq<i8>, b: Seq<i8>) -> Seq<i8> {
    Seq::new(16, |i: int| wrap_i8(a[i] - b[i]))
}

/// Lane-wise wrapping product.
pub open spec fn mul_lanes(a: Seq<i8>, b: Seq<i8>) -> Seq<i8> {
    Seq::new(16, |i: int| wrap_i8(a[i] * b[i]))
}

/// Lane-wise bitwise AND.
pub open spec fn and_lanes(a: Seq<i8>, b: Seq<i8>) -> Seq<i8> {
    Seq::new(16, |i: int| a[i] & b[i])
}

/// The lane bits of `x` moved `k` places up; bits that leave the lane are lost.
pub open spec fn shl_lane(x: i8, k: u8) -> i8 {
    ((x as u8) << k) as i8
}

/// `x` shifted `k` places down, copying the sign bit in.
pub open spec fn shr_lane(x: i8, k: u8) -> i8 {
    x >> k
}

/// Every lane shifted left by `k`.
pub open spec fn shl_lanes(a: Seq<i8>, k: u8) -> Seq<i8> {
    Seq::new(16, |i: int| shl_lane(a[i], k))
}

/// Every lane shifted right by `k`, keeping its sign.
pub open spec fn shr_lanes(a: Seq<i8>, k: u8) -> Seq<i8> {
    Seq::new(16, |i: int| shr_lane(a[i], k))
}

/// Lane-wise wrapping negation.
pub open spec fn neg_lanes(a: Seq<i8>) -> Seq<i8> {
    Seq::new(16, |i: int| wrap_i8(0 - a[i]))
}

/// The boolean lanes of `s` as bytes: -1 for true, 0 for false.
pub open spec fn mask_lanes(s: Seq<bool>) -> Seq<i8> {
    Seq::new(16, |i: int| if s[i] { -1i8 } else { 0i8 })
}

impl core::ops::Add for Vec16c {
    type Output = Self;

    /// Lane-wise sum, wrapping modulo 256.
    fn add(self, other: Self) -> (r: Self)
        ensures
            r@ == add_lanes(self@, other@),
    {
        let mut out = [0i8; 16];
        let mut i: usize = 0;
        while i < 16
            invariant
                i <= 16,
                forall|j: int| 0 <= j < i ==> out[j] == wrap_i8(self@[j] + other@[j]),
            decreases 16 - i,
        {
            out[i] = (self.lanes[i] as i16 + other.lanes[i] as i16) as i8;
            i += 1;
        }
        let r = Vec16c { lanes: out };
        assert(r@ =~= add_lanes(self@, other@));
        proof {
            lemma_vec16c_view_determines(r, add_lanes(self@, other@));
        }
        r
    }
}

impl vstd::std_specs::ops::AddSpecImpl for Vec16c {
    open spec fn obeys_add_spec() -> bool {
        true
    }

    open spec fn add_req(self, rhs: Vec16c) -> bool {
        true
    }

    open spec fn add_spec(self, rhs: Vec16c) -> Vec16c {
        choose|r: Vec16c| r@ == add_lanes(self@, rhs@)
    }
}

impl core::ops::AddAssign for Vec16c {
    fn add_assign(&mut self, other: Self)
        ensures
            final(self)@ == add_lanes(old(self)@, other@),
    {
        *self = *self + other;
    }
}

impl core::ops::Sub for Vec16c {
    type Output = Self;

    /// Lane-wise difference, wrapping modulo 256.
    fn sub(self, other: Self) -> (r: Self)
        ensures
            r@ == sub_lanes(self@, other@),
    {
        let mut out = [0i8; 16];
        let mut i: usize = 0;
        while i < 16
            invariant
                i <= 16,
                forall|j: int| 0 <= j < i ==> out[j] == wrap_i8(self@[j] - other@[j]),
            decreases 16 - i,
        {
            out[i] = (self.lanes[i] as i16 - other.lanes[i] as i16) as i8;
            i += 1;
        }
        let r = Vec16c { lanes: out };
        assert(r@ =~= sub_lanes(self@, other@));
        proof {
            lemma_vec16c_view_determines(r, sub_lanes(self@, other@));
        }
        r
    }
}

impl vstd::std_specs::ops::SubSpecImpl for Vec16c {
    open spec fn obeys_sub_spec() -> bool {
        true
    }

    open spec fn sub_req(self, rhs: Vec16c) -> bool {
        true
    }

    open spec fn sub_spec(self, rhs: Vec16c) -> Vec16c {
        choose|r: Vec16c| r@ == sub_lanes(self@, rhs@)
    }
}

impl core::ops::SubAssign for Vec16c {
    fn sub_assign(&mut self, other: Self)
        ensures
            final(self)@ == sub_lanes(old(self)@, other@),
    {
        *self = *self - other;
    }
}

impl core::ops::Neg for Vec16c {
    type Output = Self;

    /// Lane-wise `0 - self`, wrapping modulo 256.
    fn neg(self) -> (r: Self)
        ensures
            r@ == neg_lanes(self@),
    {
        let r = Vec16c::new() - self;
        assert(r@ =~= neg_lanes(self@));
        proof {
            lemma_vec16c_view_determines(r, neg_lanes(self@));
        }
        r
    }
}

impl vstd::std_specs::ops::NegSpecImpl for Vec16c {
    open spec fn obeys_neg_spec() -> bool {
        true
    }

    open spec fn neg_req(self) -> bool {
        true
    }

    open spec fn neg_spec(self) -> Vec16c {
        choose|r: Vec16c| r@ == neg_lanes(self@)
    }
}

/// Multiplying two lanes packed as 16-bit words: the low byte of the word
/// product, and the product of the high bytes, are the lanes' wrapping
/// products.
proof fn lemma_word_product(a0: i8, a1: i8, b0: i8, b1: i8)
    ensures
        ({
            let wa = (a0 as u8 as u16) | ((a1 as u8 as u16) << 8);
            let wb = (b0 as u8 as u16) | ((b1 as u8 as u16) << 8);
            let even = ((wa as u32) * (wb as u32)) as u16;
            let odd = ((((wa >> 8) as u32) * ((wb >> 8) as u32)) as u16) << 8;
            let word = (even & 0x00FFu16) | (odd & 0xFF00u16);
            &&& word as u8 as i8 == (a0 as i16 * b0 as i16) as i8
            &&& (word >> 8) as u8 as i8 == (a1 as i16 * b1 as i16) as i8
        }),
{
    assert({
        let wa = (a0 as u8 as u16) | ((a1 as u8 as u16) << 8);
        let wb = (b0 as u8 as u16) | ((b1 as u8 as u16) << 8);
        let even = ((wa as u32) * (wb as u32)) as u16;
        let odd = ((((wa >> 8) as u32) * ((wb >> 8) as u32)) as u16) << 8;
        let word = (even & 0x00FFu16) | (odd & 0xFF00u16);
        &&& word as u8 as i8 == (a0 as i16 * b0 as i16) as i8
        &&& (word >> 8) as u8 as i8 == (a1 as i16 * b1 as i16) as i8
    }) by (bit_vector);
}

impl core::ops::Mul for Vec16c {
    type Output = Self;

    /// Lane-wise product, wrapping modulo 256. Lanes `2k` and `2k + 1` form one
    /// 16-bit word; the words are multiplied whole (the low byte of that
    /// product is the even lane's), the odd lanes are shifted down and
    /// multiplied alone with the product shifted back up, and the two are
    /// recombined byte by byte.
    fn mul(self, other: Self) -> (r: Self)
        ensures
            r@ == mul_lanes(self@, other@),
    {
        let mut out = [0i8; 16];
        let mut k: usize = 0;
        while k < 8
            invariant
                k <= 8,
                forall|j: int| 0 <= j < 2 * k ==> out[j] == wrap_i8(self@[j] * other@[j]),
            decreases 8 - k,
        {
            let (a0, a1) = (self.lanes[2 * k], self.lanes[2 * k + 1]);
            let (b0, b1) = (other.lanes[2 * k], other.lanes[2 * k + 1]);
            let wa: u16 = (a0 as u8 as u16) | ((a1 as u8 as u16) << 8);
            let wb: u16 = (b0 as u8 as u16) | ((b1 as u8 as u16) << 8);
            assert((wa as u32) * (wb as u32) <= 0xFFFF * 0xFFFF) by (nonlinear_arith)
                requires
                    wa <= 0xFFFF,
                    wb <= 0xFFFF,
            ;
            assert(((wa >> 8) as u32) * ((wb >> 8) as u32) <= 0xFFFF * 0xFFFF) by (nonlinear_arith)
                requires
                    (wa >> 8) <= 0xFFFF,
                    (wb >> 8) <= 0xFFFF,
            ;
            let even: u16 = ((wa as u32) * (wb as u32)) as u16;
            let odd: u16 = ((((wa >> 8) as u32) * ((wb >> 8) as u32)) as u16) << 8;
            let word: u16 = (even & 0x00FF) | (odd & 0xFF00);
            proof {
                lemma_word_product(a0, a1, b0, b1);
            }
            out[2 * k] = word as u8 as i8;
            out[2 * k + 1] = (word >> 8) as u8 as i8;
            k += 1;
        }
        let r = Vec16c { lanes: out };
        assert(r@ =~= mul_lanes(self@, other@));
        proof {
            lemma_vec16c_view_determines(r, mul_lanes(self@, other@));
        }
        r
    }
}

impl vstd::std_specs::ops::MulSpecImpl for Vec16c {
    open spec fn obeys_mul_spec() -> bool {
        true
    }

    open spec fn mul_req(self, rhs: Vec16c) -> bool {
        true
    }

    open spec fn mul_spec(self, rhs: Vec16c) -> Vec16c {
        choose|r: Vec16c| r@ == mul_lanes(self@, rhs@)
    }
}

impl core::ops::MulAssign for Vec16c {
    fn mul_assign(&mut self, other: Self)
        ensures
            final(self)@ == mul_lanes(old(self)@, other@),
    {
        *self = *self * other;
    }
}

impl core::ops::Shl<i32> for Vec16c {
    type Output = Self;

    /// Shifts every lane left by `rhs` (0 to 7) bits. The bits that would
    /// leave a lane are masked off first, so none reaches the next lane.
    fn shl(self, rhs: i32) -> (r: Self)
        ensures
            r@ == shl_lanes(self@, rhs as u8),
    {
        let k: u8 = rhs as u8;
        let keep: u8 = 0xFFu8 >> k;
        let mut out = [0i8; 16];
        let mut i: usize = 0;
        while i < 16
            invariant
                i <= 16,
                k < 8,
                k == rhs as u8,
                keep == 0xFFu8 >> k,
                forall|j: int| 0 <= j < i ==> out[j] == shl_lane(self@[j], k),
            decreases 16 - i,
        {
            let x = self.lanes[i];
            let wide: u16 = (((x as u8) & keep) as u16) << k;
            assert(((((x as u8) & (0xFFu8 >> k)) as u16) << k) as u8 as i8 == ((x as u8) << k) as i8)
                by (bit_vector)
                requires
                    k < 8,
            ;
            out[i] = wide as u8 as i8;
            i += 1;
        }
        let r = Vec16c { lanes: out };
        assert(r@ =~= shl_lanes(self@, rhs as u8));
        proof {
            lemma_vec16c_view_determines(r, shl_lanes(self@, rhs as u8));
        }
        r
    }
}

impl vstd::std_specs::ops::ShlSpecImpl<i32> for Vec16c {
    open spec fn obeys_shl_spec() -> bool {
        true
    }

    open spec fn shl_req(self, rhs: i32) -> bool {
        0 <= rhs < 8
    }

    open spec fn shl_spec(self, rhs: i32) -> Vec16c {
        choose|r: Vec16c| r@ == shl_lanes(self@, rhs as u8)
    }
}

impl core::ops::Shr<i32> for Vec16c {
    type Output = Self;

    /// Shifts every lane right by `rhs` (0 to 7) bits, keeping its sign: each
    /// lane is sign-extended to 16 bits, shifted there, and narrowed back.
    fn shr(self, rhs: i32) -> (r: Self)
        ensures
            r@ == shr_lanes(self@, rhs as u8),
    {
        let k: u8 = rhs as u8;
        let mut out = [0i8; 16];
        let mut i: usize = 0;
        while i < 16
            invariant
                i <= 16,
                k < 8,
                k == rhs as u8,
                forall|j: int| 0 <= j < i ==> out[j] == shr_lane(self@[j], k),
            decreases 16 - i,
        {
            let x = self.lanes[i];
            let wide: i16 = (x as i16) >> k;
            assert(((x as i16) >> k) as i8 == x >> k) by (bit_vector)
                requires
                    k < 8,
            ;
            out[i] = wide as i8;
            i += 1;
        }
        let r = Vec16c { lanes: out };
        assert(r@ =~= shr_lanes(self@, rhs as u8));
        proof {
            lemma_vec16c_view_determines(r, shr_lanes(self@, rhs as u8));
        }
        r
    }
}

impl vstd::std_specs::ops::ShrSpecImpl<i32> for Vec16c {
    open spec fn obeys_shr_spec() -> bool {
        true
    }

    open spec fn shr_req(self, rhs: i32) -> bool {
        0 <= rhs < 8
    }

    open spec fn shr_spec(self, rhs: i32) -> Vec16c {
        choose|r: Vec16c| r@ == shr_lanes(self@, rhs as u8)
    }
}

impl core::ops::BitAnd for Vec16c {
    type Output = Self;

    /// Lane-wise bitwise AND.
    fn bitand(self, other: Self) -> (r: Self)
        ensures
            r@ == and_lanes(self@, other@),
    {
        let mut out = [0i8; 16];
        let mut i: usize = 0;
        while i < 16
            invariant
                i <= 16,
                forall|j: int| 0 <= j < i ==> out[j] == self@[j] & other@[j],
            decreases 16 - i,
        {
            out[i] = self.lanes[i] & other.lanes[i];
            i += 1;
        }
        let r = Vec16c { lanes: out };
        assert(r@ =~= and_lanes(self@, other@));
        proof {
            lemma_vec16c_view_determines(r, and_lanes(self@, other@));
        }
        r
    }
}

impl vstd::std_specs::ops::BitAndSpecImpl for Vec16c {
    open spec fn obeys_bitand_spec() -> bool {
        true
    }

    open spec fn bitand_req(self, rhs: Vec16c) -> bool {
        true
    }

    open spec fn bitand_spec(self, rhs: Vec16c) -> Vec16c {
        choose|r: Vec16c| r@ == and_lanes(self@, rhs@)
    }
}

impl core::ops::BitAndAssign for Vec16c {
    fn bitand_assign(&mut self, other: Self)
        ensures
            final(self)@ == and_lanes(old(self)@, other@),
    {
        *self = *self & other;
    }
}

impl PartialEq for Vec16c {
    /// True iff the two vectors hold the same 128 bits.
    fn eq(&self, other: &Self) -> (r: bool)
        ensures
            r == (self@ == other@),
            r == (forall|i: int| 0 <= i < 16 ==> self@[i] == other@[i]),
    {
        let mut diff: i8 = 0;
        let mut i: usize = 0;
        while i < 16
            invariant
                i <= 16,
                (diff == 0i8) == (forall|j: int| 0 <= j < i ==> self@[j] == other@[j]),
            decreases 16 - i,
        {
            let x = self.lanes[i];
            let y = other.lanes[i];
            assert(x == self@[i as int] && y == other@[i as int]);
            assert((diff | (x ^ y)) == 0i8 <==> (diff == 0i8 && x == y)) by (bit_vector);
            let ghost before = diff;
            diff = diff | (x ^ y);
            i += 1;
            assert((diff == 0i8) == (forall|j: int| 0 <= j < i ==> self@[j] == other@[j])) by {
                if diff == 0i8 {
                    assert(before == 0i8);
                } else if before == 0i8 {
                    assert(self@[i - 1] != other@[i - 1]);
                } else {
                    let w = choose|w: int| 0 <= w < i - 1 && self@[w] != other@[w];
                    assert(self@[w] != other@[w]);
                }
            }
        }
        proof {
            if diff == 0i8 {
                assert(self@ =~= other@);
            }
        }
        diff == 0
    }
}

impl vstd::std_specs::cmp::PartialEqSpecImpl for Vec16c {
    open spec fn obeys_eq_spec() -> bool {
        true
    }

    open spec fn eq_spec(&self, other: &Vec16c) -> bool {
        self@ == other@
    }
}

impl From<Vec16bc> for Vec16c {
    /// The mask's lanes as bytes: -1 for true, 0 for false.
    fn from(a: Vec16bc) -> (r: Self)
        ensures
            r@ == mask_lanes(a@),
    {
        proof {
            use_type_invariant(&a);
        }
        let r = Vec16c { lanes: a.lanes };
        assert forall|i: int| 0 <= i < 16 implies r@[i] == mask_lanes(a@)[i] by {
            assert(is_bool_lane(a.lanes[i]));
        }
        assert(r@ =~= mask_lanes(a@));
        proof {
            lemma_vec16c_view_determines(r, mask_lanes(a@));
        }
        r
    }
}

impl vstd::std_specs::convert::FromSpecImpl<Vec16bc> for Vec16c {
    open spec fn obeys_from_spec() -> bool {
        true
    }

    open spec fn from_spec(v: Vec16bc) -> Vec16c {
        choose|r: Vec16c| r@ == mask_lanes(v@)
    }
}

/// Conditional add: lane `i` is `a[i] + b[i]` (wrapping) where `f[i]`, else `a[i]`.
pub fn if_add(f: Vec16bc, a: Vec16c, b: Vec16c) -> (r: Vec16c)
    ensures
        r@ == Seq::new(16, |i: int| if f@[i] { wrap_i8(a@[i] + b@[i]) } else { a@[i] }),
{
    let masked = Vec16c::from(f) & b;
    proof {
        lemma_masked_operand(f@, b@);
    }
    let r = a + masked;
    assert(r@ =~= Seq::new(16, |i: int| if f@[i] { wrap_i8(a@[i] + b@[i]) } else { a@[i] }));
    r
}

/// Conditional subtract: lane `i` is `a[i] - b[i]` (wrapping) where `f[i]`, else `a[i]`.
pub fn if_sub(f: Vec16bc, a: Vec16c, b: Vec16c) -> (r: Vec16c)
    ensures
        r@ == Seq::new(16, |i: int| if f@[i] { wrap_i8(a@[i] - b@[i]) } else { a@[i] }),
{
    let masked = Vec16c::from(f) & b;
    proof {
        lemma_masked_operand(f@, b@);
    }
    let r = a - masked;
    assert(r@ =~= Seq::new(16, |i: int| if f@[i] { wrap_i8(a@[i] - b@[i]) } else { a@[i] }));
    r
}

/// Conditional multiply: lane `i` is `a[i] * b[i]` (wrapping) where `f[i]`, else `a[i]`.
pub fn if_mul(f: Vec16bc, a: Vec16c, b: Vec16c) -> (r: Vec16c)
    ensures
        r@ == Seq::new(16, |i: int| if f@[i] { wrap_i8(a@[i] * b@[i]) } else { a@[i] }),
{
    let r = select(f, a * b, a);
    assert(r@ =~= Seq::new(16, |i: int| if f@[i] { wrap_i8(a@[i] * b@[i]) } else { a@[i] }));
    r
}

/// Masking an operand with a boolean-lane vector keeps it where the mask is
/// true and zeroes it elsewhere.
proof fn lemma_masked_operand(f: Seq<bool>, b: Seq<i8>)
    ensures
        forall|i: int|
            0 <= i < 16 ==> #[trigger] and_lanes(mask_lanes(f), b)[i] == (if f[i] { b[i] } else { 0i8 }),
{
    assert forall|i: int| 0 <= i < 16 implies #[trigger] and_lanes(mask_lanes(f), b)[i] == (if f[i] {
        b[i]
    } else {
        0i8
    }) by {
        lemma_and_mask(b[i], mask_lanes(f)[i]);
    }
}

/// The exact sum of the lanes of `s`.
pub open spec fn lane_sum(s: Seq<i8>) -> int
    decreases s.len(),
{
    if s.len() == 0 {
        0
    } else {
        lane_sum(s.drop_last()) + s.last()
    }
}

/// Sum of all lanes, reduced modulo 256 (a value in `0..256`). The lanes are
/// summed as unsigned bytes, which agrees with the signed sum modulo 256.
pub fn horizontal_add(a: Vec16c) -> (r: i32)
    ensures
        r == lane_sum(a@) % 256,
        a@.len() == 16,
{
    let mut acc: u32 = 0;
    let mut i: usize = 0;
    while i < 16
        invariant
            i <= 16,
            acc <= 255 * i,
            acc as int % 256 == lane_sum(a@.subrange(0, i as int)) % 256,
        decreases 16 - i,
    {
        let x = a.lanes[i];
        let u: u8 = x as u8;
        assert(x >= 0 ==> (x as u8) as i16 == x as i16) by (bit_vector);
        assert(x < 0 ==> (x as u8) as i16 == x as i16 + 256) by (bit_vector);
        proof {
            let pre = a@.subrange(0, i as int);
            let next = a@.subrange(0, i + 1);
            assert(next.drop_last() =~= pre);
            assert(next.last() == x);
        }
        acc = acc + u as u32;
        i += 1;
    }
    assert(a@.subrange(0, 16) =~= a@);
    (acc % 256) as i32
}

/// Exact sum of all lanes: each lane is sign-extended before it is added, so
/// nothing wraps.
pub fn horizontal_add_x(a: Vec16c) -> (r: i32)
    ensures
        r == lane_sum(a@),
        a@.len() == 16,
{
    let mut acc: i32 = 0;
    let mut i: usize = 0;
    while i < 16
        invariant
            i <= 16,
            -128 * i <= acc <= 127 * i,
            acc == lane_sum(a@.subrange(0, i as int)),
        decreases 16 - i,
    {
        let x = a.lanes[i];
        proof {
            let pre = a@.subrange(0, i as int);
            let next = a@.subrange(0, i + 1);
            assert(next.drop_last() =~= pre);
            assert(next.last() == x);
        }
        acc = acc + x as i32;
        i += 1;
    }
    assert(a@.subrange(0, 16) =~= a@);
    acc
}

/// `x` clamped to the signed 8-bit range.
pub open spec fn saturate_i8(x: int) -> i8 {
    if x > 127 {
        127i8
    } else if x < -128 {
        -128i8
    } else {
        x as i8
    }
}

/// Lane-wise sum, clamped to `-128..=127`.
pub fn add_saturated(a: Vec16c, b: Vec16c) -> (r: Vec16c)
    ensures
        r@ == Seq::new(16, |i: int| saturate_i8(a@[i] + b@[i])),
{
    let mut out = [0i8; 16];
    let mut i: usize = 0;
    while i < 16
        invariant
            i <= 16,
            forall|j: int| 0 <= j < i ==> out[j] == saturate_i8(a@[j] + b@[j]),
        decreases 16 - i,
    {
        let t: i16 = a.lanes[i] as i16 + b.lanes[i] as i16;
        out[i] = if t > 127 {
            127
        } else if t < -128 {
            -128
        } else {
            t as i8
        };
        i += 1;
    }
    let r = Vec16c { lanes: out };
    assert(r@ =~= Seq::new(16, |i: int| saturate_i8(a@[i] + b@[i])));
    r
}

/// Lane-wise difference, clamped to `-128..=127`.
pub fn sub_saturated(a: Vec16c, b: Vec16c) -> (r: Vec16c)
    ensures
        r@ == Seq::new(16, |i: int| saturate_i8(a@[i] - b@[i])),
{
    let mut out = [0i8; 16];
    let mut i: usize = 0;
    while i < 16
        invariant
            i <= 16,
            forall|j: int| 0 <= j < i ==> out[j] == saturate_i8(a@[j] - b@[j]),
        decreases 16 - i,
    {
        let t: i16 = a.lanes[i] as i16 - b.lanes[i] as i16;
        out[i] = if t > 127 {
            127
        } else if t < -128 {
            -128
        } else {
            t as i8
        };
        i += 1;
    }
    let r = Vec16c { lanes: out };
    assert(r@ =~= Seq::new(16, |i: int| saturate_i8(a@[i] - b@[i])));
    r
}

/// Lane-wise signed maximum.
pub open spec fn max_lanes(a: Seq<i8>, b: Seq<i8>) -> Seq<i8> {
    Seq::new(16, |i: int| if a[i] > b[i] { a[i] } else { b[i] })
}

/// Lane-wise signed minimum.
pub open spec fn min_lanes(a: Seq<i8>, b: Seq<i8>) -> Seq<i8> {
    Seq::new(16, |i: int| if a[i] < b[i] { a[i] } else { b[i] })
}

/// Flipping the sign bit maps signed order onto unsigned order, and flipping it
/// again restores the lane.
proof fn lemma_sign_flip(x: i8, y: i8)
    ensures
        ((x as u8) ^ 0x80u8) > ((y as u8) ^ 0x80u8) <==> x > y,
        (((x as u8) ^ 0x80u8) ^ 0x80u8) as i8 == x,
{
    assert(((x as u8) ^ 0x80u8) > ((y as u8) ^ 0x80u8) <==> x > y) by (bit_vector);
    assert((((x as u8) ^ 0x80u8) ^ 0x80u8) as i8 == x) by (bit_vector);
}

/// Lane-wise signed maximum, taken as an unsigned maximum on lanes whose sign
/// bit is flipped.
pub fn max(a: Vec16c, b: Vec16c) -> (r: Vec16c)
    ensures
        r@ == max_lanes(a@, b@),
{
    let mut out = [0i8; 16];
    let mut i: usize = 0;
    while i < 16
        invariant
            i <= 16,
            forall|j: int| 0 <= j < i ==> out[j] == max_lanes(a@, b@)[j],
        decreases 16 - i,
    {
        let x = a.lanes[i];
        let y = b.lanes[i];
        proof {
            lemma_sign_flip(x, y);
            lemma_sign_flip(y, x);
        }
        let ux: u8 = (x as u8) ^ 0x80;
        let uy: u8 = (y as u8) ^ 0x80;
        let m: u8 = if ux > uy { ux } else { uy };
        out[i] = (m ^ 0x80) as i8;
        i += 1;
    }
    let r = Vec16c { lanes: out };
    assert(r@ =~= max_lanes(a@, b@));
    r
}

/// Lane-wise signed minimum, taken as an unsigned minimum on lanes whose sign
/// bit is flipped.
pub fn min(a: Vec16c, b: Vec16c) -> (r: Vec16c)
    ensures
        r@ == min_lanes(a@, b@),
{
    let mut out = [0i8; 16];
    let mut i: usize = 0;
    while i < 16
        invariant
            i <= 16,
            forall|j: int| 0 <= j < i ==> out[j] == min_lanes(a@, b@)[j],
        decreases 16 - i,
    {
        let x = a.lanes[i];
        let y = b.lanes[i];
        proof {
            lemma_sign_flip(x, y);
            lemma_sign_flip(y, x);
        }
        let ux: u8 = (x as u8) ^ 0x80;
        let uy: u8 = (y as u8) ^ 0x80;
        let m: u8 = if ux < uy { ux } else { uy };
        out[i] = (m ^ 0x80) as i8;
        i += 1;
    }
    let r = Vec16c { lanes: out };
    assert(r@ =~= min_lanes(a@, b@));
    r
}

/// Absolute value of a lane, wrapping: -128 has no positive counterpart and
/// stays -128.
pub open spec fn abs_lane(x: i8) -> i8 {
    if x < 0 {
        wrap_i8(-x)
    } else {
        x
    }
}

/// Lane-wise absolute value, taken as the unsigned minimum of each lane and its
/// negation; -128 is returned unchanged.
pub fn abs(a: Vec16c) -> (r: Vec16c)
    ensures
        r@ == Seq::new(16, |i: int| abs_lane(a@[i])),
{
    let mut out = [0i8; 16];
    let mut i: usize = 0;
    while i < 16
        invariant
            i <= 16,
            forall|j: int| 0 <= j < i ==> out[j] == abs_lane(a@[j]),
        decreases 16 - i,
    {
        let x = a.lanes[i];
        let nx: i8 = (0i16 - x as i16) as i8;
        let ux: u8 = x as u8;
        let un: u8 = nx as u8;
        assert((if (x as u8) < (((0i16 - x as i16) as i8) as u8) {
            x as u8
        } else {
            ((0i16 - x as i16) as i8) as u8
        }) as i8 == if x < 0 {
            (0i16 - x as i16) as i8
        } else {
            x
        }) by (bit_vector);
        out[i] = (if ux < un { ux } else { un }) as i8;
        i += 1;
    }
    let r = Vec16c { lanes: out };
    assert(r@ =~= Seq::new(16, |i: int| abs_lane(a@[i])));
    r
}

/// Absolute value of a lane, with -128 saturated to 127.
pub open spec fn abs_saturated_lane(x: i8) -> i8 {
    if x == -128 {
        127i8
    } else {
        abs_lane(x)
    }
}

/// Lane-wise absolute value; a lane that is still negative after `abs` (only
/// -128) has -1 added, which takes it to 127.
pub fn abs_saturated(a: Vec16c) -> (r: Vec16c)
    ensures
        r@ == Seq::new(16, |i: int| abs_saturated_lane(a@[i])),
{
    let absa = abs(a);
    let mut out = [0i8; 16];
    let mut i: usize = 0;
    while i < 16
        invariant
            i <= 16,
            absa@ == Seq::new(16, |i: int| abs_lane(a@[i])),
            forall|j: int| 0 <= j < i ==> out[j] == abs_saturated_lane(a@[j]),
        decreases 16 - i,
    {
        let y = absa.lanes[i];
        let x = a.lanes[i];
        assert(y == abs_lane(x));
        assert(x == -128i8 ==> wrap_i8(-x) == -128i8) by {
            assert((128i16) as i8 == -128i8) by (bit_vector);
        }
        assert(y < 0 <==> x == -128i8);
        assert((-128i16 + -1i16) as i8 == 127i8) by (bit_vector);
        let overflow: i8 = if y < 0 { -1 } else { 0 };
        out[i] = (y as i16 + overflow as i16) as i8;
        i += 1;
    }
    let r = Vec16c { lanes: out };
    assert(r@ =~= Seq::new(16, |i: int| abs_saturated_lane(a@[i])));
    r
}

/// `x` rotated left by `k` (0 to 7) bit places within its eight bits.
pub open spec fn rotl_lane(x: i8, k: u8) -> i8 {
    (((x as u8) << k) | ((x as u8) >> (((8 - k) as u8) & 7u8))) as i8
}

/// Every lane of `s` rotated left by `b mod 8` bit places.
pub open spec fn rotate_lanes(s: Seq<i8>, b: int) -> Seq<i8> {
    Seq::new(16, |i: int| rotl_lane(s[i], (b % 8) as u8))
}

/// Rotates each lane left by `b mod 8` bits; a negative `b` rotates right.
pub fn rotate_left(a: Vec16c, b: i32) -> (r: Vec16c)
    ensures
        r@ == rotate_lanes(a@, b as int),
{
    let k: u8 = (b & 7) as u8;
    assert((b & 7) as int == b as int % 8) by (bit_vector);
    // The right-hand part moves `-b mod 8` places the other way.
    let back: u8 = (8 - k) & 7;
    assert(((8 - k) as u8) & 7u8 < 8) by (bit_vector);
    let high: u8 = 0xFFu8 << k;
    let mut out = [0i8; 16];
    let mut i: usize = 0;
    while i < 16
        invariant
            i <= 16,
            k < 8,
            k == (b as int % 8) as u8,
            back == ((8 - k) as u8) & 7u8,
            back < 8,
            high == 0xFFu8 << k,
            forall|j: int| 0 <= j < i ==> out[j] == rotl_lane(a@[j], k),
        decreases 16 - i,
    {
        let u = a.lanes[i] as u8;
        let left: u8 = u << k;
        let right: u8 = u >> back;
        assert(((((u << k) & (0xFFu8 << k)) | ((u >> (((8 - k) as u8) & 7u8)) & !(0xFFu8 << k))) as i8)
            == ((u << k) | (u >> (((8 - k) as u8) & 7u8))) as i8) by (bit_vector)
            requires
                k < 8,
        ;
        out[i] = ((left & high) | (right & !high)) as i8;
        i += 1;
    }
    let r = Vec16c { lanes: out };
    assert(r@ =~= rotate_lanes(a@, b as int));
    r
}

/// Writes `a[i] * b[i]` (wrapping) to `c[i]` for every index of `a`, sixteen
/// lanes at a time; a final chunk of fewer than sixteen elements goes through
/// `load_partial` and `store_partial`, so nothing past the end is read or
/// written. Elements of `c` past `a.len()` are kept.
pub fn mul_elementwise(a: &[i8], b: &[i8], c: &mut [i8])
    requires
        a@.len() == b@.len(),
        old(c)@.len() >= a@.len(),
    ensures
        final(c)@.len() == old(c)@.len(),
        forall|i: int| 0 <= i < a@.len() ==> final(c)@[i] == wrap_i8(a@[i] * b@[i]),
        forall|i: int| a@.len() <= i < old(c)@.len() ==> final(c)@[i] == old(c)@[i],
{
    let len = a.len();
    let mut i: usize = 0;
    while i < len
        invariant
            len == a@.len(),
            a@.len() == b@.len(),
            i <= len,
            c@.len() == old(c)@.len(),
            c@.len() >= len,
            forall|j: int| 0 <= j < i ==> c@[j] == wrap_i8(a@[j] * b@[j]),
            forall|j: int| len <= j < c@.len() ==> c@[j] == old(c)@[j],
        decreases len - i,
    {
        let rest: usize = len - i;
        let sa = vstd::slice::slice_subrange(a, i, len);
        let sb = vstd::slice::slice_subrange(b, i, len);
        let mut va = Vec16c::new();
        let mut vb = Vec16c::new();
        let mut chunk = [0i8; 16];
        let m: usize;
        if rest >= 16 {
            va.load(sa);
            vb.load(sb);
            let prod = va * vb;
            prod.store(&mut chunk);
            m = 16;
        } else {
            va.load_partial(rest, sa);
            vb.load_partial(rest, sb);
            let mut prod = va * vb;
            prod.store_partial(rest, &mut chunk);
            m = rest;
        }
        assert(forall|k: int| 0 <= k < m ==> chunk[k] == wrap_i8(a@[i + k] * b@[i + k]));
        let mut k: usize = 0;
        while k < m
            invariant
                len == a@.len(),
                a@.len() == b@.len(),
                i + m <= len,
                m <= 16,
                k <= m,
                c@.len() == old(c)@.len(),
                c@.len() >= len,
                forall|t: int| 0 <= t < m ==> chunk[t] == wrap_i8(a@[i + t] * b@[i + t]),
                forall|j: int| 0 <= j < i + k ==> c@[j] == wrap_i8(a@[j] * b@[j]),
                forall|j: int| len <= j < c@.len() ==> c@[j] == old(c)@[j],
            decreases m - k,
        {
            c[i + k] = chunk[k];
            k += 1;
        }
        i += m;
    }
}

/// Cutting a vector off at `n` zeroes exactly the lanes from index `n` on and
/// keeps the lanes below it.
pub proof fn lemma_cutoff_lanes(n: usize, v: Vec16c)
    ensures
        forall|i: int| 0 <= i < 16 && i >= n ==> #[trigger] first_lanes(n as int, v@)[i] == 0i8,
        forall|i: int| 0 <= i < 16 && i < n ==> #[trigger] first_lanes(n as int, v@)[i] == v@[i],
{
}

/// Storing the first `n` lanes of a partial load of `x` into `y` copies the
/// first `min(n, 16)` elements of `x` into `y` and leaves every later element
/// of `y` as it was.
pub proof fn lemma_partial_round_trip(n: usize, x: Seq<i8>, y: Seq<i8>)
    requires
        x.len() >= clamp16(n as int),
        y.len() >= clamp16(n as int),
    ensures
        overwrite_prefix(n as int, first_lanes(n as int, x), y) == Seq::new(
            y.len(),
            |i: int| if i < clamp16(n as int) { x[i] } else { y[i] },
        ),
{
    assert(overwrite_prefix(n as int, first_lanes(n as int, x), y) =~= Seq::new(
        y.len(),
        |i: int| if i < clamp16(n as int) { x[i] } else { y[i] },
    ));
}

/// The lanes of a vector of `len` copies of `v` sum to `len * v`.
proof fn lemma_lane_sum_constant(v: i8, len: nat)
    ensures
        lane_sum(Seq::new(len, |i: int| v)) == len * v,
    decreases len,
{
    let s = Seq::new(len, |i: int| v);
    if len > 0 {
        let shorter = Seq::new((len - 1) as nat, |i: int| v);
        assert(s.drop_last() =~= shorter);
        lemma_lane_sum_constant(v, (len - 1) as nat);
        assert(lane_sum(s) == lane_sum(shorter) + v);
        assert(len * v == (len - 1) * v + v) by (nonlinear_arith);
    } else {
        assert(lane_sum(s) == 0);
    }
}

/// On a vector whose sixteen lanes all equal `v`, the wrapping horizontal sum
/// is `16 * v` modulo 256 and the extended one is exactly `16 * v`.
pub proof fn lemma_horizontal_add_broadcast(v: i8)
    ensures
        lane_sum(Seq::new(16, |i: int| v)) % 256 == (16 * v) % 256,
        lane_sum(Seq::new(16, |i: int| v)) == 16 * v,
{
    lemma_lane_sum_constant(v, 16);
}

/// Lane by lane, the minimum plus the maximum of two vectors equals their sum,
/// modulo 256.
pub proof fn lemma_min_plus_max(a: Vec16c, b: Vec16c)
    ensures
        add_lanes(min_lanes(a@, b@), max_lanes(a@, b@)) == add_lanes(a@, b@),
{
    assert(add_lanes(min_lanes(a@, b@), max_lanes(a@, b@)) =~= add_lanes(a@, b@));
}

/// Rotating a lane by `k` and then by `(8 - k) mod 8` restores it.
proof fn lemma_rotl_lane_inverse(x: i8, k: u8)
    requires
        k < 8,
    ensures
        rotl_lane(rotl_lane(x, k), ((8 - k) as u8) & 7u8) == x,
        rotl_lane(x, 0) == x,
{
    assert(rotl_lane(rotl_lane(x, k), ((8 - k) as u8) & 7u8) == x) by (bit_vector)
        requires
            k < 8,
    ;
    assert(rotl_lane(x, 0) == x) by (bit_vector);
}

/// Rotating by zero leaves every lane unchanged.
pub proof fn lemma_rotate_left_zero(v: Vec16c)
    ensures
        rotate_lanes(v@, 0) == v@,
{
    assert forall|i: int| 0 <= i < 16 implies rotate_lanes(v@, 0)[i] == v@[i] by {
        lemma_rotl_lane_inverse(v@[i], 0);
    }
    assert(rotate_lanes(v@, 0) =~= v@);
}

/// Rotating left by `k` and then by `8 - k` restores every lane.
pub proof fn lemma_rotate_left_round_trip(v: Vec16c, k: int)
    requires
        0 <= k <= 8,
    ensures
        rotate_lanes(rotate_lanes(v@, k), 8 - k) == v@,
{
    let kk = (k % 8) as u8;
    assert(((8 - kk) as u8) & 7u8 == ((8 - k) % 8) as u8) by {
        if k == 8 || k == 0 {
            assert(kk == 0);
            assert(((8 - 0u8) as u8) & 7u8 == 0u8) by (bit_vector);
        } else {
            assert(kk == k);
            assert(((8 - kk) as u8) & 7u8 == (8 - kk) as u8) by (bit_vector)
                requires
                    1 <= kk < 8,
            ;
        }
    }
    assert forall|i: int| 0 <= i < 16 implies rotate_lanes(rotate_lanes(v@, k), 8 - k)[i] == v@[i] by {
        lemma_rotl_lane_inverse(v@[i], kk);
    }
    assert(rotate_lanes(rotate_lanes(v@, k), 8 - k) =~= v@);
}

/// Wrapping addition and subtraction undo each other: adding `o` to `x` and
/// then subtracting `o` gives back `x`, lane by lane.
pub proof fn lemma_add_sub_round_trip(x: Vec16c, o: Vec16c)
    ensures
        sub_lanes(add_lanes(x@, o@), o@) == x@,
{
    assert forall|i: int| 0 <= i < 16 implies #[trigger] sub_lanes(add_lanes(x@, o@), o@)[i] == x@[i] by {
        let a = x@[i];
        let b = o@[i];
        assert(((a as i16 + b as i16) as i8 as i16 - b as i16) as i8 == a) by (bit_vector);
    }
    assert(sub_lanes(add_lanes(x@, o@), o@) =~= x@);
}

} // verus!
