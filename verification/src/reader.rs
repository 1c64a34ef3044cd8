//! Little-endian byte reader for the SELinux kernel binary policy format.
//!
//! The kernel policydb is a flat, little-endian binary blob with no internal
//! offsets: every structure is read sequentially. This reader provides
//! bounds-checked primitive reads plus the compound readers (length-prefixed
//! strings, ebitmaps, MLS levels/ranges, contexts) that the format builds
//! everything else out of.
//!
//! Each read is specified by a function on the whole byte sequence and a
//! position, giving either the decoded value and the position after it, or
//! the error message and the position at which reading stopped.

use vstd::prelude::*;
use vstd::utf8::{valid_utf8, decode_utf8};
use crate::text::{dec, hex_prefixed, push_str, push_dec, push_hex_prefixed};

verus! {

/// A value decoded at a position together with the position after it, or an
/// error message together with the position at which reading stopped.
pub type SpecResult<T> = Result<(T, nat), (Seq<char>, nat)>;

/// The message for a read of `need` bytes at `pos` when only `have` remain.
pub open spec fn eof_msg(pos: nat, need: nat, have: nat) -> Seq<char> {
    "unexpected EOF at offset "@ + hex_prefixed(pos) + ": need "@ + dec(need)
        + " more byte(s), have "@ + dec(have)
}

/// The bytes left after position `p`.
pub open spec fn left(d: Seq<u8>, p: nat) -> nat {
    if p <= d.len() { (d.len() - p) as nat } else { 0 }
}

/// `n` raw bytes at `p`.
pub open spec fn sp_bytes(d: Seq<u8>, p: nat, n: nat) -> SpecResult<Seq<u8>> {
    if p + n <= d.len() {
        Ok((d.subrange(p as int, (p + n) as int), p + n))
    } else {
        Err((eof_msg(p, n, left(d, p)), p))
    }
}

/// Skipping `n` bytes at `p`.
pub open spec fn sp_skip(d: Seq<u8>, p: nat, n: nat) -> SpecResult<()> {
    if p + n <= d.len() {
        Ok(((), p + n))
    } else {
        Err((eof_msg(p, n, left(d, p)), p))
    }
}

/// Little-endian value of two bytes.
pub open spec fn le16(b: Seq<u8>) -> u16 {
    (b[0] + 256 * b[1]) as u16
}

/// Little-endian value of four bytes.
pub open spec fn le32(b: Seq<u8>) -> u32 {
    (b[0] + 256 * b[1] + 65536 * b[2] + 16777216 * b[3]) as u32
}

/// Little-endian value of eight bytes.
pub open spec fn le64(b: Seq<u8>) -> u64 {
    (le32(b.subrange(0, 4)) + 4294967296 * le32(b.subrange(4, 8))) as u64
}

pub open spec fn sp_u8(d: Seq<u8>, p: nat) -> SpecResult<u8> {
    match sp_bytes(d, p, 1) {
        Ok((b, q)) => Ok((b[0], q)),
        Err(e) => Err(e),
    }
}

pub open spec fn sp_u16(d: Seq<u8>, p: nat) -> SpecResult<u16> {
    match sp_bytes(d, p, 2) {
        Ok((b, q)) => Ok((le16(b), q)),
        Err(e) => Err(e),
    }
}

pub open spec fn sp_u32(d: Seq<u8>, p: nat) -> SpecResult<u32> {
    match sp_bytes(d, p, 4) {
        Ok((b, q)) => Ok((le32(b), q)),
        Err(e) => Err(e),
    }
}

pub open spec fn sp_u64(d: Seq<u8>, p: nat) -> SpecResult<u64> {
    match sp_bytes(d, p, 8) {
        Ok((b, q)) => Ok((le64(b), q)),
        Err(e) => Err(e),
    }
}

/// The index of the first zero byte at or after `i`, or the length.
pub open spec fn nul_index(b: Seq<u8>, i: nat) -> nat
    decreases b.len() - i,
{
    if i >= b.len() {
        b.len()
    } else if b[i as int] == 0 {
        i
    } else {
        nul_index(b, i + 1)
    }
}

/// The bytes before the first zero byte (all of them if there is none).
pub open spec fn until_nul(b: Seq<u8>) -> Seq<u8> {
    b.subrange(0, nul_index(b, 0) as int)
}

/// What `String::from_utf8` reports (through `Display`) for invalid bytes.
pub uninterp spec fn utf8_error_text(bytes: Seq<u8>) -> Seq<char>;

/// Decoding the text of `b` (up to its first NUL) as UTF-8; `what` names the
/// item in the error message and `start` is where its bytes began.
pub open spec fn sp_text(b: Seq<u8>, q: nat, what: Seq<char>, start: nat) -> SpecResult<Seq<char>> {
    let t = until_nul(b);
    if valid_utf8(t) {
        Ok((decode_utf8(t), q))
    } else {
        Err(("invalid UTF-8 "@ + what + " at "@ + hex_prefixed(start) + ": "@ + utf8_error_text(t), q))
    }
}

/// A key of known length `len`, NUL-padded.
pub open spec fn sp_key(d: Seq<u8>, p: nat, len: nat) -> SpecResult<Seq<char>> {
    if len == 0 {
        Ok((Seq::empty(), p))
    } else {
        match sp_bytes(d, p, len) {
            Ok((b, q)) => sp_text(b, q, "key"@, p),
            Err(e) => Err(e),
        }
    }
}

/// A `u32`-length-prefixed string, a trailing NUL tolerated.
pub open spec fn sp_string(d: Seq<u8>, p: nat) -> SpecResult<Seq<char>> {
    match sp_u32(d, p) {
        Err(e) => Err(e),
        Ok((len, p1)) => if len == 0 {
            Ok((Seq::empty(), p1))
        } else {
            match sp_bytes(d, p1, len as nat) {
                Ok((b, q)) => sp_text(b, q, "string"@, p1),
                Err(e) => Err(e),
            }
        },
    }
}

/// Whether bit `bit` of `map` is set.
pub open spec fn bit_set(map: u64, bit: u32) -> bool {
    map & (1u64 << bit) != 0
}

/// The set bits below `k` of one ebitmap node, each offset by `start`
/// (wrapping), in increasing bit order.
pub open spec fn map_bits(start: u32, map: u64, k: nat) -> Seq<u32>
    decreases k,
{
    if k == 0 {
        Seq::empty()
    } else {
        let bit = (k - 1) as u32;
        map_bits(start, map, (k - 1) as nat) + if bit_set(map, bit) {
            seq![vstd::wrapping::u32_specs::wrapping_add(start, bit)]
        } else {
            Seq::empty()
        }
    }
}

/// The bits of `n` ebitmap nodes (`startbit: u32`, `map: u64`) at `p`.
pub open spec fn sp_nodes(d: Seq<u8>, p: nat, n: nat) -> SpecResult<Seq<u32>>
    decreases n,
{
    if n == 0 {
        Ok((Seq::empty(), p))
    } else {
        match sp_nodes(d, p, (n - 1) as nat) {
            Err(e) => Err(e),
            Ok((bits, q)) => match sp_u32(d, q) {
                Err(e) => Err(e),
                Ok((start, q1)) => match sp_u64(d, q1) {
                    Err(e) => Err(e),
                    Ok((map, q2)) => Ok((bits + map_bits(start, map, 64), q2)),
                },
            },
        }
    }
}

/// Once reading the nodes fails, reading more of them fails the same way.
pub proof fn lemma_nodes_err(d: Seq<u8>, p: nat, i: nat, n: nat)
    requires
        i <= n,
        sp_nodes(d, p, i) is Err,
    ensures
        sp_nodes(d, p, n) == sp_nodes(d, p, i),
    decreases n - i,
{
    if i < n {
        lemma_nodes_err(d, p, i, (n - 1) as nat);
    }
}

/// An ebitmap: `mapsize`, `highbit`, `count`, then (unless `highbit` is zero)
/// `count` nodes; the indices of its set bits.
pub open spec fn sp_ebitmap(d: Seq<u8>, p: nat) -> SpecResult<Seq<u32>> {
    match sp_u32(d, p) {
        Err(e) => Err(e),
        Ok((_mapsize, p1)) => match sp_u32(d, p1) {
            Err(e) => Err(e),
            Ok((highbit, p2)) => match sp_u32(d, p2) {
                Err(e) => Err(e),
                Ok((count, p3)) => if highbit == 0 {
                    Ok((Seq::empty(), p3))
                } else {
                    sp_nodes(d, p3, count as nat)
                },
            },
        },
    }
}

/// Skipping an ebitmap: its header, then `count` twelve-byte nodes.
pub open spec fn sp_skip_ebitmap(d: Seq<u8>, p: nat) -> SpecResult<()> {
    match sp_u32(d, p) {
        Err(e) => Err(e),
        Ok((_mapsize, p1)) => match sp_u32(d, p1) {
            Err(e) => Err(e),
            Ok((_highbit, p2)) => match sp_u32(d, p2) {
                Err(e) => Err(e),
                Ok((count, p3)) => sp_skip(d, p3, count as nat * 12),
            },
        },
    }
}

/// Reading `n` nodes succeeds exactly when `12 * n` bytes are left, and
/// ends after them.
pub proof fn lemma_nodes_span(d: Seq<u8>, p: nat, n: nat)
    requires
        p <= d.len(),
    ensures
        (sp_nodes(d, p, n) is Ok) == (p + 12 * n <= d.len()),
        sp_nodes(d, p, n) is Ok ==> sp_nodes(d, p, n)->Ok_0.1 == p + 12 * n,
    decreases n,
{
    if n > 0 {
        lemma_nodes_span(d, p, (n - 1) as nat);
    }
}

/// Skipping an ebitmap succeeds exactly when reading it does, and both end
/// at the same position, twelve bytes per node past the header, wherever
/// the header's high bit is set or its node count is zero.
pub proof fn law_skip_ebitmap_as_read(d: Seq<u8>, p: nat)
    requires
        p + 12 <= d.len() ==> (le32(d.subrange(p + 4 as int, p + 8 as int)) != 0 || le32(d.subrange(p + 8 as int, p + 12 as int)) == 0),
    ensures
        (sp_skip_ebitmap(d, p) is Ok) == (sp_ebitmap(d, p) is Ok),
        sp_skip_ebitmap(d, p) is Ok ==> sp_skip_ebitmap(d, p)->Ok_0.1 == sp_ebitmap(d, p)->Ok_0.1
            && sp_ebitmap(d, p)->Ok_0.1 == p + 12 + 12 * le32(d.subrange(p + 8 as int, p + 12 as int)),
{
    if p + 12 <= d.len() {
        let count = le32(d.subrange(p + 8 as int, p + 12 as int));
        lemma_nodes_span(d, p + 12, count as nat);
    }
}

/// Skipping an MLS level: a sensitivity and a category ebitmap.
pub open spec fn sp_skip_mls_level(d: Seq<u8>, p: nat) -> SpecResult<()> {
    match sp_u32(d, p) {
        Err(e) => Err(e),
        Ok((_sens, p1)) => sp_skip_ebitmap(d, p1),
    }
}

/// Skipping an MLS range: `items`, one or two sensitivities, one or two
/// category ebitmaps (two of each when `items > 1`).
pub open spec fn sp_skip_mls_range(d: Seq<u8>, p: nat) -> SpecResult<()> {
    match sp_u32(d, p) {
        Err(e) => Err(e),
        Ok((items, p1)) => match sp_u32(d, p1) {
            Err(e) => Err(e),
            Ok((_low, p2)) => {
                let r3: SpecResult<()> = if items > 1 {
                    match sp_u32(d, p2) {
                        Err(e) => Err(e),
                        Ok((_high, p3)) => Ok(((), p3)),
                    }
                } else {
                    Ok(((), p2))
                };
                match r3 {
                    Err(e) => Err(e),
                    Ok((_, p3)) => match sp_skip_ebitmap(d, p3) {
                        Err(e) => Err(e),
                        Ok((_, p4)) => if items > 1 {
                            sp_skip_ebitmap(d, p4)
                        } else {
                            Ok(((), p4))
                        },
                    },
                }
            },
        },
    }
}

/// A context: user, role and type, then an MLS range when `mls`; its type.
pub open spec fn sp_context_type(d: Seq<u8>, p: nat, mls: bool) -> SpecResult<u32> {
    match sp_u32(d, p) {
        Err(e) => Err(e),
        Ok((_user, p1)) => match sp_u32(d, p1) {
            Err(e) => Err(e),
            Ok((_role, p2)) => match sp_u32(d, p2) {
                Err(e) => Err(e),
                Ok((typ, p3)) => if mls {
                    match sp_skip_mls_range(d, p3) {
                        Err(e) => Err(e),
                        Ok((_, p4)) => Ok((typ, p4)),
                    }
                } else {
                    Ok((typ, p3))
                },
            },
        },
    }
}

/// Skipping a context.
pub open spec fn sp_skip_context(d: Seq<u8>, p: nat, mls: bool) -> SpecResult<()> {
    match sp_context_type(d, p, mls) {
        Err(e) => Err(e),
        Ok((_, q)) => Ok(((), q)),
    }
}

#[verifier::opaque]
/// `n` consecutive steps from position `p`, each reading an item and
/// updating a state, starting from `s0`; the first failing step ends it.
pub open spec fn sp_iterate<S>(p: nat, n: nat, s0: S, step: spec_fn(S, nat) -> SpecResult<S>) -> SpecResult<S>
    decreases n,
{
    if n == 0 {
        Ok((s0, p))
    } else {
        match sp_iterate(p, (n - 1) as nat, s0, step) {
            Err(e) => Err(e),
            Ok((s, q)) => step(s, q),
        }
    }
}

/// One more step after a successful run.
pub proof fn lemma_iterate_next<S>(p: nat, i: nat, s0: S, step: spec_fn(S, nat) -> SpecResult<S>, s: S, q: nat)
    requires
        sp_iterate(p, i, s0, step) == Ok::<(S, nat), (Seq<char>, nat)>((s, q)),
    ensures
        sp_iterate(p, i + 1, s0, step) == step(s, q),
{
    reveal(sp_iterate);
}

/// No steps leave the state and position unchanged.
pub proof fn lemma_iterate_zero<S>(p: nat, s0: S, step: spec_fn(S, nat) -> SpecResult<S>)
    ensures
        sp_iterate(p, 0, s0, step) == Ok::<(S, nat), (Seq<char>, nat)>((s0, p)),
{
    reveal(sp_iterate);
}

/// Once a step fails, running more steps fails the same way.
pub proof fn lemma_iterate_err<S>(p: nat, i: nat, n: nat, s0: S, step: spec_fn(S, nat) -> SpecResult<S>)
    requires
        i <= n,
        sp_iterate(p, i, s0, step) is Err,
    ensures
        sp_iterate(p, n, s0, step) == sp_iterate(p, i, s0, step),
    decreases n - i,
{
    reveal(sp_iterate);
    if i < n {
        lemma_iterate_err(p, i, (n - 1) as nat, s0, step);
    }
}

/// A property of the state that every step keeps holds after any number of
/// steps.
pub proof fn lemma_iterate_keeps<S>(p: nat, n: nat, s0: S, step: spec_fn(S, nat) -> SpecResult<S>, inv: spec_fn(S) -> bool)
    requires
        inv(s0),
        forall|s: S, q: nat|
            inv(s) ==> match #[trigger] step(s, q) {
                Ok((s2, _)) => inv(s2),
                Err(_) => true,
            },
    ensures
        match sp_iterate(p, n, s0, step) {
            Ok((s2, _)) => inv(s2),
            Err(_) => true,
        },
    decreases n,
{
    reveal(sp_iterate);
    if n > 0 {
        lemma_iterate_keeps(p, (n - 1) as nat, s0, step, inv);
    }
}

/// An executable step that returns nothing and updates a state agrees with a
/// specified step: same success or failure, same message, same position,
/// and on success the state it left.
pub open spec fn follows_state<S>(spec: SpecResult<S>, got: Result<(), Seq<char>>, state: S, pos: nat) -> bool {
    match spec {
        Ok((s, q)) => got is Ok && state == s && pos == q,
        Err((m, q)) => got == Err::<(), Seq<char>>(m) && pos == q,
    }
}

/// The outcome of an executable read, by view.
pub open spec fn outcome<T: View>(r: Result<T, String>) -> Result<T::V, Seq<char>> {
    match r {
        Ok(v) => Ok(v@),
        Err(e) => Err(e@),
    }
}

/// An executable outcome and the position it left agree with a specified
/// result.
pub open spec fn follows<V>(spec: SpecResult<V>, got: Result<V, Seq<char>>, pos: nat) -> bool {
    match spec {
        Ok((v, q)) => got == Ok::<V, Seq<char>>(v) && pos == q,
        Err((m, q)) => got == Err::<V, Seq<char>>(m) && pos == q,
    }
}

#[verifier::external_body]
/// `String::from_utf8`, with its error rendered by `Display`. The contract
/// claims that it succeeds exactly on valid UTF-8 and then holds the decoded
/// characters, and that the error text is a function of the bytes alone.
fn string_from_utf8(bytes: Vec<u8>) -> (r: Result<String, String>)
    ensures
        match r {
            Ok(s) => valid_utf8(bytes@) && s@ == decode_utf8(bytes@),
            Err(e) => !valid_utf8(bytes@) && e@ == utf8_error_text(bytes@),
        },
{
    String::from_utf8(bytes).map_err(|e| e.to_string())
}

/// Sequential, bounds-checked cursor over a policy blob.
pub struct Reader<'a> {
    data: &'a [u8],
    pos: usize,
}

impl<'a> Reader<'a> {
    #[verifier::type_invariant]
    spec fn in_bounds(&self) -> bool {
        self.pos <= self.data@.len()
    }

    /// The whole byte sequence being read.
    pub closed spec fn bytes(&self) -> Seq<u8> {
        self.data@
    }

    /// The current offset.
    pub closed spec fn at(&self) -> nat {
        self.pos as nat
    }

    pub fn new(data: &'a [u8]) -> (r: Self)
        ensures
            r.bytes() == data@,
            r.at() == 0,
    {
        Self { data, pos: 0 }
    }

    pub fn pos(&self) -> (p: usize)
        ensures
            p == self.at(),
            p <= self.bytes().len(),
    {
        proof {
            use_type_invariant(self);
        }
        self.pos
    }

    pub fn remaining(&self) -> (n: usize)
        ensures
            n == left(self.bytes(), self.at()),
    {
        proof {
            use_type_invariant(self);
        }
        self.data.len() - self.pos
    }

    /// The end-of-input error for a read of `n` bytes here.
    fn eof_error(&self, n: u64) -> (e: String)
        ensures
            e@ == eof_msg(self.at(), n as nat, left(self.bytes(), self.at())),
    {
        let mut e = String::new();
        push_str(&mut e, "unexpected EOF at offset ");
        push_hex_prefixed(&mut e, self.pos as u64);
        push_str(&mut e, ": need ");
        push_dec(&mut e, n);
        push_str(&mut e, " more byte(s), have ");
        push_dec(&mut e, self.remaining() as u64);
        e
    }

    /// Skipping `n` bytes, `n` given as a 64-bit count.
    pub(crate) fn skip_wide(&mut self, n: u64) -> (r: Result<(), String>)
        ensures
            final(self).bytes() == old(self).bytes(),
            follows(sp_skip(old(self).bytes(), old(self).at(), n as nat), outcome(r), final(self).at()),
    {
        proof {
            use_type_invariant(&*self);
        }
        if n > (self.data.len() - self.pos) as u64 {
            return Err(self.eof_error(n));
        }
        self.pos = self.pos + n as usize;
        Ok(())
    }

    pub fn read_u8(&mut self) -> (r: Result<u8, String>)
        ensures
            final(self).bytes() == old(self).bytes(),
            follows(sp_u8(old(self).bytes(), old(self).at()), outcome(r), final(self).at()),
    {
        proof {
            use_type_invariant(&*self);
        }
        if self.data.len() - self.pos < 1 {
            return Err(self.eof_error(1));
        }
        let b = self.data[self.pos];
        self.pos = self.pos + 1;
        Ok(b)
    }

    pub fn read_u16(&mut self) -> (r: Result<u16, String>)
        ensures
            final(self).bytes() == old(self).bytes(),
            follows(sp_u16(old(self).bytes(), old(self).at()), outcome(r), final(self).at()),
    {
        proof {
            use_type_invariant(&*self);
        }
        if self.data.len() - self.pos < 2 {
            return Err(self.eof_error(2));
        }
        let p = self.pos;
        let v = self.data[p] as u16 + 256 * (self.data[p + 1] as u16);
        self.pos = p + 2;
        Ok(v)
    }

    /// The little-endian `u32` at `p`.
    fn u32_at(&self, p: usize) -> (v: u32)
        requires
            p + 4 <= self.bytes().len(),
        ensures
            v == le32(self.bytes().subrange(p as int, p + 4)),
    {
        let v = self.data[p] as u32 + 256 * (self.data[p + 1] as u32) + 65536 * (
        self.data[p + 2] as u32) + 16777216 * (self.data[p + 3] as u32);
        v
    }

    pub fn read_u32(&mut self) -> (r: Result<u32, String>)
        ensures
            final(self).bytes() == old(self).bytes(),
            follows(sp_u32(old(self).bytes(), old(self).at()), outcome(r), final(self).at()),
    {
        proof {
            use_type_invariant(&*self);
        }
        if self.data.len() - self.pos < 4 {
            return Err(self.eof_error(4));
        }
        let p = self.pos;
        let v = self.u32_at(p);
        self.pos = p + 4;
        Ok(v)
    }

    pub fn read_u64(&mut self) -> (r: Result<u64, String>)
        ensures
            final(self).bytes() == old(self).bytes(),
            follows(sp_u64(old(self).bytes(), old(self).at()), outcome(r), final(self).at()),
    {
        proof {
            use_type_invariant(&*self);
        }
        if self.data.len() - self.pos < 8 {
            return Err(self.eof_error(8));
        }
        let p = self.pos;
        let lo = self.u32_at(p);
        let hi = self.u32_at(p + 4);
        let ghost b = self.data@.subrange(p as int, p + 8);
        assert(b.subrange(0, 4) =~= self.data@.subrange(p as int, p + 4));
        assert(b.subrange(4, 8) =~= self.data@.subrange(p + 4, p + 8));
        let v = lo as u64 + 4294967296 * (hi as u64);
        self.pos = p + 8;
        Ok(v)
    }

    pub fn read_bytes(&mut self, n: usize) -> (r: Result<&'a [u8], String>)
        ensures
            final(self).bytes() == old(self).bytes(),
            follows(sp_bytes(old(self).bytes(), old(self).at(), n as nat), outcome(r), final(self).at()),
    {
        proof {
            use_type_invariant(&*self);
        }
        if self.data.len() - self.pos < n {
            return Err(self.eof_error(n as u64));
        }
        let p = self.pos;
        let slice = &self.data[p..p + n];
        self.pos = p + n;
        Ok(slice)
    }

    pub fn skip(&mut self, n: usize) -> (r: Result<(), String>)
        ensures
            final(self).bytes() == old(self).bytes(),
            follows(sp_skip(old(self).bytes(), old(self).at(), n as nat), outcome(r), final(self).at()),
    {
        self.skip_wide(n as u64)
    }

    /// Decodes the text of `bytes` (up to its first NUL) read from `start`.
    fn text(bytes: &[u8], what: &str, start: usize) -> (r: Result<String, String>)
        ensures
            match sp_text(bytes@, 0, what@, start as nat) {
                Ok((s, _)) => r is Ok && r->Ok_0@ == s,
                Err((m, _)) => r is Err && r->Err_0@ == m,
            },
    {
        let mut end: usize = 0;
        while end < bytes.len() && bytes[end] != 0
            invariant
                end <= bytes@.len(),
                nul_index(bytes@, 0) == nul_index(bytes@, end as nat),
            decreases bytes@.len() - end,
        {
            end = end + 1;
        }
        let owned = vstd::slice::slice_to_vec(&bytes[0..end]);
        assert(owned@ =~= until_nul(bytes@));
        match string_from_utf8(owned) {
            Ok(s) => Ok(s),
            Err(detail) => {
                let mut e = String::new();
                push_str(&mut e, "invalid UTF-8 ");
                push_str(&mut e, what);
                push_str(&mut e, " at ");
                push_hex_prefixed(&mut e, start as u64);
                push_str(&mut e, ": ");
                push_str(&mut e, detail.as_str());
                Err(e)
            },
        }
    }

    /// A key of already-known length: `len` raw bytes, interpreted as a
    /// (possibly NUL-padded) string. Used for symbol-table datum names, where
    /// the length is read as a separate field ahead of the fixed-size fields.
    pub fn read_key(&mut self, len: usize) -> (r: Result<String, String>)
        ensures
            final(self).bytes() == old(self).bytes(),
            follows(sp_key(old(self).bytes(), old(self).at(), len as nat), outcome(r), final(self).at()),
    {
        if len == 0 {
            return Ok(String::new());
        }
        let start = self.pos();
        let bytes = self.read_bytes(len)?;
        Self::text(bytes, "key", start)
    }

    /// A length-prefixed string: `u32` byte length followed by the raw bytes.
    /// The kernel does not null-terminate these, but some producers do, so a
    /// trailing NUL is tolerated and stripped.
    pub fn read_string(&mut self) -> (r: Result<String, String>)
        ensures
            final(self).bytes() == old(self).bytes(),
            follows(sp_string(old(self).bytes(), old(self).at()), outcome(r), final(self).at()),
    {
        let len = self.read_u32()?;
        if len == 0 {
            return Ok(String::new());
        }
        let start = self.pos();
        let bytes = self.read_bytes(len as usize)?;
        Self::text(bytes, "string", start)
    }

    /// Read an ebitmap and return the indices of every set bit.
    ///
    /// Layout: `mapsize(u32)`, `highbit(u32)`, `count(u32)`, then `count`
    /// nodes of `startbit(u32)` + `map(u64)`.
    pub fn read_ebitmap(&mut self) -> (r: Result<Vec<u32>, String>)
        ensures
            final(self).bytes() == old(self).bytes(),
            follows(sp_ebitmap(old(self).bytes(), old(self).at()), outcome(r), final(self).at()),
    {
        let _mapsize = self.read_u32()?;
        let highbit = self.read_u32()?;
        let count = self.read_u32()?;
        let ghost d = self.bytes();
        let ghost p3 = self.at();

        let mut bits: Vec<u32> = Vec::new();
        if highbit == 0 {
            return Ok(bits);
        }
        let mut i: u32 = 0;
        while i < count
            invariant
                i <= count,
                self.bytes() == d,
                d == old(self).bytes(),
                sp_ebitmap(d, old(self).at()) == sp_nodes(d, p3, count as nat),
                sp_nodes(d, p3, i as nat) == Ok::<(Seq<u32>, nat), (Seq<char>, nat)>(
                    (bits@, self.at()),
                ),
            decreases count - i,
        {
            let startbit = match self.read_u32() {
                Ok(v) => v,
                Err(e) => {
                    proof {
                        lemma_nodes_err(d, p3, (i + 1) as nat, count as nat);
                    }
                    return Err(e);
                },
            };
            let map = match self.read_u64() {
                Ok(v) => v,
                Err(e) => {
                    proof {
                        lemma_nodes_err(d, p3, (i + 1) as nat, count as nat);
                    }
                    return Err(e);
                },
            };
            let ghost before = bits@;
            let mut bit: u32 = 0;
            while bit < 64
                invariant
                    bit <= 64,
                    bits@ == before + map_bits(startbit, map, bit as nat),
                decreases 64 - bit,
            {
                if map & (1u64 << bit) != 0 {
                    bits.push(startbit.wrapping_add(bit));
                }
                assert(bits@ =~= before + map_bits(startbit, map, (bit + 1) as nat));
                bit = bit + 1;
            }
            i = i + 1;
        }
        Ok(bits)
    }

    /// Skip an ebitmap without materialising its bits.
    pub fn skip_ebitmap(&mut self) -> (r: Result<(), String>)
        ensures
            final(self).bytes() == old(self).bytes(),
            follows(sp_skip_ebitmap(old(self).bytes(), old(self).at()), outcome(r), final(self).at()),
    {
        let _mapsize = self.read_u32()?;
        let _highbit = self.read_u32()?;
        let count = self.read_u32()?;
        self.skip_wide(count as u64 * 12)  // startbit(u32) + map(u64)
    }

    /// MLS level: `sensitivity(u32)` + category ebitmap.
    pub fn skip_mls_level(&mut self) -> (r: Result<(), String>)
        ensures
            final(self).bytes() == old(self).bytes(),
            follows(sp_skip_mls_level(old(self).bytes(), old(self).at()), outcome(r), final(self).at()),
    {
        let _sens = self.read_u32()?;
        self.skip_ebitmap()
    }

    /// MLS range (`mls_read_range_helper`): an `items` count, then 1 or 2
    /// sensitivities, then 1 or 2 category ebitmaps. When `items == 1` the
    /// high level mirrors the low level and only one of each is stored.
    pub fn skip_mls_range(&mut self) -> (r: Result<(), String>)
        ensures
            final(self).bytes() == old(self).bytes(),
            follows(sp_skip_mls_range(old(self).bytes(), old(self).at()), outcome(r), final(self).at()),
    {
        let items = self.read_u32()?;
        let _sens_low = self.read_u32()?;
        if items > 1 {
            let _sens_high = self.read_u32()?;
        }
        self.skip_ebitmap()?;  // low categories
        if items > 1 {
            self.skip_ebitmap()?;  // high categories
        }
        Ok(())
    }

    /// A context struct: `user(u32)`, `role(u32)`, `type(u32)`, and — when the
    /// policy is MLS — an MLS range. Returns the type value, the only field we
    /// surface.
    pub fn read_context_type(&mut self, mls: bool) -> (r: Result<u32, String>)
        ensures
            final(self).bytes() == old(self).bytes(),
            follows(sp_context_type(old(self).bytes(), old(self).at(), mls), outcome(r), final(self).at()),
    {
        let _user = self.read_u32()?;
        let _role = self.read_u32()?;
        let typ = self.read_u32()?;
        if mls {
            self.skip_mls_range()?;
        }
        Ok(typ)
    }

    pub fn skip_context(&mut self, mls: bool) -> (r: Result<(), String>)
        ensures
            final(self).bytes() == old(self).bytes(),
            follows(sp_skip_context(old(self).bytes(), old(self).at(), mls), outcome(r), final(self).at()),
    {
        self.read_context_type(mls)?;
        Ok(())
    }
}

} // verus!
