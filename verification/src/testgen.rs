//! Synthetic policy generator used by the test suite and as a CLI fixture.
//!
//! Hand-assembling a minimal but structurally complete `policydb` lets the
//! parser be exercised end to end — header, the leading policy-capability and
//! permissive ebitmaps, every symbol table, the access-vector table, and all
//! the trailing sections — without committing a real (large, license-
//! encumbered) `sepolicy` blob to the repository. The byte layout matches the
//! kernel's `policydb_read`, so any drift between parser and format shows up as
//! a failing test.

use vstd::prelude::*;
use vstd::utf8::{encode_utf8, encode_scalar, is_scalar, has_width_1_encoding, char_is_scalar, char_u32_cast,
    encode_utf8_valid_utf8, encode_utf8_decode_utf8};
use crate::reader::{sp_u16, sp_u32, sp_u64, sp_string, sp_ebitmap, sp_nodes, map_bits, le32, nul_index,
    until_nul};

verus! {

/// Little-endian bytes of a 16-bit value.
pub open spec fn w16(v: u16) -> Seq<u8> {
    seq![(v % 256) as u8, (v / 256) as u8]
}

/// Little-endian bytes of a 32-bit value.
pub open spec fn w32(v: u32) -> Seq<u8> {
    seq![(v % 256) as u8, (v / 256 % 256) as u8, (v / 65536 % 256) as u8, (v / 16777216) as u8]
}

/// Little-endian bytes of a 64-bit value.
pub open spec fn w64(v: u64) -> Seq<u8> {
    w32((v % 4294967296) as u32) + w32((v / 4294967296) as u32)
}

/// The UTF-8 bytes of a key, unprefixed.
pub open spec fn wkey(s: Seq<char>) -> Seq<u8> {
    encode_utf8(s)
}

/// A length-prefixed string.
pub open spec fn wstring(s: Seq<char>) -> Seq<u8> {
    w32(encode_utf8(s).len() as u32) + wkey(s)
}

/// The `(startbit, map)` nodes of an ebitmap.
pub open spec fn wnodes(nodes: Seq<(u32, u64)>) -> Seq<u8>
    decreases nodes.len(),
{
    if nodes.len() == 0 {
        Seq::empty()
    } else {
        wnodes(nodes.drop_last()) + w32(nodes.last().0) + w64(nodes.last().1)
    }
}

/// An ebitmap: map size 64, the high bit, the node count, the nodes.
pub open spec fn wbitmap(highbit: u32, nodes: Seq<(u32, u64)>) -> Seq<u8> {
    w32(64) + w32(highbit) + w32(nodes.len() as u32) + wnodes(nodes)
}

/// An empty ebitmap.
pub open spec fn wbitmap_empty() -> Seq<u8> {
    wbitmap(0, Seq::empty())
}

/// A permission datum: length, value, key.
pub open spec fn wperm(name: Seq<char>, value: u32) -> Seq<u8> {
    w32(encode_utf8(name).len() as u32) + w32(value) + wkey(name)
}

/// A type datum (version 24 on): length, value, properties 0, bounds 0,
/// key.
pub open spec fn wtype(name: Seq<char>, value: u32) -> Seq<u8> {
    w32(encode_utf8(name).len() as u32) + w32(value) + w32(0) + w32(0) + wkey(name)
}

/// The header of the minimal policy and its leading ebitmaps.
pub open spec fn minimal_header() -> Seq<u8> {
    w32(0xF97C_FF8C) + wstring("SE Linux"@) + w32(30) + w32(0) + w32(8) + w32(0)
        + wbitmap(64, seq![(0u32, 1u64)]) + wbitmap_empty()
}

/// The class table of the minimal policy: class `file` (value 1) with
/// `read`, `write`, `execute` and one constraint `u1 == u2` on `write`.
pub open spec fn minimal_classes() -> Seq<u8> {
    w32(1) + w32(1)
        + w32(encode_utf8("file"@).len() as u32) + w32(0) + w32(1) + w32(3) + w32(3) + w32(1)
        + wkey("file"@) + wperm("read"@, 1) + wperm("write"@, 2) + wperm("execute"@, 3)
        + w32(2) + w32(1) + w32(4) + w32(1) + w32(1)
        + w32(0) + w32(0) + w32(0) + w32(0) + w32(0)
}

/// The role, type and user tables of the minimal policy: role `object_r`;
/// types `source_t` (1) and `target_t` (2); user `system_u`.
pub open spec fn minimal_principals() -> Seq<u8> {
    w32(1) + w32(1)
        + w32(encode_utf8("object_r"@).len() as u32) + w32(1) + w32(0) + wkey("object_r"@)
        + wbitmap_empty() + wbitmap_empty()
        + w32(2) + w32(2) + wtype("source_t"@, 1) + wtype("target_t"@, 2)
        + w32(1) + w32(1)
        + w32(encode_utf8("system_u"@).len() as u32) + w32(1) + w32(0) + wkey("system_u"@)
        + wbitmap_empty()
}

/// The minimal policy's symbol tables: no commons, the classes, the roles,
/// types and users, and no booleans, sensitivities or categories.
pub open spec fn minimal_symbols() -> Seq<u8> {
    w32(0) + w32(0) + minimal_classes() + minimal_principals()
        + w32(0) + w32(0) + w32(0) + w32(0) + w32(0) + w32(0)
}

/// The minimal policy's rule sections: one access-vector entry allowing
/// `source_t` `read` and `write` on `target_t`'s files; empty conditional,
/// role and filename-transition lists; no genfs; two empty type-attribute
/// ebitmaps.
pub open spec fn minimal_rules() -> Seq<u8> {
    w32(1) + w16(1) + w16(2) + w16(1) + w16(1) + w32(3)
        + w32(0) + w32(0) + w32(0) + w32(0)
        + w32(0)
        + wbitmap_empty() + wbitmap_empty()
}

/// The bytes of the minimal version-30, non-MLS policy.
pub open spec fn minimal_policy_bytes() -> Seq<u8> {
    minimal_header() + minimal_symbols() + minimal_rules()
}

/// A tiny little-endian writer mirroring `Reader`'s read order.
struct Writer {
    buf: Vec<u8>,
}

impl Writer {
    fn new() -> (w: Self)
        ensures
            w.buf@ == Seq::<u8>::empty(),
    {
        Self { buf: Vec::new() }
    }

    fn u32(&mut self, v: u32)
        ensures
            final(self).buf@ == old(self).buf@ + w32(v),
    {
        self.buf.push((v % 256) as u8);
        self.buf.push((v / 256 % 256) as u8);
        self.buf.push((v / 65536 % 256) as u8);
        self.buf.push((v / 16777216) as u8);
        assert(self.buf@ =~= old(self).buf@ + w32(v));
    }

    fn u16(&mut self, v: u16)
        ensures
            final(self).buf@ == old(self).buf@ + w16(v),
    {
        self.buf.push((v % 256) as u8);
        self.buf.push((v / 256) as u8);
        assert(self.buf@ =~= old(self).buf@ + w16(v));
    }

    fn u64(&mut self, v: u64)
        ensures
            final(self).buf@ == old(self).buf@ + w64(v),
    {
        self.u32((v % 4294967296) as u32);
        self.u32((v / 4294967296) as u32);
        assert(self.buf@ =~= old(self).buf@ + w64(v));
    }

    /// Raw key bytes (length is written separately as a preceding field).
    fn key(&mut self, s: &str)
        ensures
            final(self).buf@ == old(self).buf@ + wkey(s@),
    {
        let bytes = s.as_bytes();
        let ghost start = self.buf@;
        let mut i: usize = 0;
        while i < bytes.len()
            invariant
                i <= bytes@.len(),
                bytes@ == encode_utf8(s@),
                self.buf@ == start + bytes@.subrange(0, i as int),
            decreases bytes@.len() - i,
        {
            self.buf.push(bytes[i]);
            assert(self.buf@ =~= start + bytes@.subrange(0, i + 1));
            i = i + 1;
        }
        assert(bytes@.subrange(0, bytes@.len() as int) =~= bytes@);
    }

    /// The length of a string's UTF-8 encoding, as written.
    fn len32(s: &str) -> (n: u32)
        ensures
            n == encode_utf8(s@).len() as u32,
    {
        s.as_bytes().len() as u32
    }

    /// A length-prefixed string (used by genfs/filename-trans/ocontext).
    fn string(&mut self, s: &str)
        ensures
            final(self).buf@ == old(self).buf@ + wstring(s@),
    {
        self.u32(Self::len32(s));
        self.key(s);
        assert(self.buf@ =~= old(self).buf@ + wstring(s@));
    }

    /// An ebitmap (mapsize, highbit, count) followed by `(startbit, map)` nodes.
    fn ebitmap(&mut self, highbit: u32, nodes: &Vec<(u32, u64)>)
        ensures
            final(self).buf@ == old(self).buf@ + wbitmap(highbit, nodes@),
    {
        self.u32(64);  // mapsize (ignored by reader)
        self.u32(highbit);
        self.u32(nodes.len() as u32);
        let ghost start = self.buf@;
        let mut i: usize = 0;
        assert(nodes@.subrange(0, 0) =~= Seq::<(u32, u64)>::empty());
        assert(self.buf@ =~= start + wnodes(nodes@.subrange(0, 0)));
        while i < nodes.len()
            invariant
                i <= nodes@.len(),
                self.buf@ == start + wnodes(nodes@.subrange(0, i as int)),
            decreases nodes@.len() - i,
        {
            let (startbit, map) = nodes[i];
            self.u32(startbit);
            self.u64(map);
            assert(nodes@.subrange(0, i + 1).drop_last() =~= nodes@.subrange(0, i as int));
            assert(self.buf@ =~= start + wnodes(nodes@.subrange(0, i + 1)));
            i = i + 1;
        }
        assert(nodes@.subrange(0, nodes@.len() as int) =~= nodes@);
        assert(self.buf@ =~= old(self).buf@ + wbitmap(highbit, nodes@));
    }

    fn ebitmap_empty(&mut self)
        ensures
            final(self).buf@ == old(self).buf@ + wbitmap_empty(),
    {
        let nodes: Vec<(u32, u64)> = Vec::new();
        self.ebitmap(0, &nodes);
        assert(nodes@ =~= Seq::<(u32, u64)>::empty());
    }

    /// A perm datum: len, value, key.
    fn perm(&mut self, name: &str, value: u32)
        ensures
            final(self).buf@ == old(self).buf@ + wperm(name@, value),
    {
        self.u32(Self::len32(name));
        self.u32(value);
        self.key(name);
        assert(self.buf@ =~= old(self).buf@ + wperm(name@, value));
    }

    /// A type datum: len, value, properties (not an attribute), bounds, key.
    fn type_datum(&mut self, name: &str, value: u32)
        ensures
            final(self).buf@ == old(self).buf@ + wtype(name@, value),
    {
        self.u32(Self::len32(name));
        self.u32(value);
        self.u32(0);  // properties: not an attribute (v>=24)
        self.u32(0);  // bounds
        self.key(name);
        assert(self.buf@ =~= old(self).buf@ + wtype(name@, value));
    }
}

#[verifier::rlimit(60)]
fn write_header(w: &mut Writer)
    ensures
        final(w).buf@ == old(w).buf@ + minimal_header(),
{
    w.u32(0xF97C_FF8C);  // magic
    w.string("SE Linux");  // policydb kind
    w.u32(30);  // version
    w.u32(0);  // config: MLS off
    w.u32(8);  // sym_num
    w.u32(0);  // oclass_num (no object contexts)

    // ---- Leading ebitmaps (v30 >= POLCAP(22) and PERMISSIVE(23)) ----
    let caps = vec![(0u32, 1u64)];
    w.ebitmap(64, &caps);  // policycaps: bit 0
    w.ebitmap_empty();  // permissive map
    assert(caps@ =~= seq![(0u32, 1u64)]);
    assert(w.buf@ =~= old(w).buf@ + minimal_header());
}

#[verifier::rlimit(60)]
fn write_classes(w: &mut Writer)
    ensures
        final(w).buf@ == old(w).buf@ + minimal_classes(),
{
    // ---- SYM_CLASSES: class "file" ----
    w.u32(1);  // nprim
    w.u32(1);  // nel
    // class_read header: len, common_len, value, nprim, nel, ncons
    w.u32(Writer::len32("file"));
    w.u32(0);  // no common
    w.u32(1);  // value
    w.u32(3);  // nprim
    w.u32(3);  // nel (perms)
    w.u32(1);  // ncons
    w.key("file");
    w.perm("read", 1);
    w.perm("write", 2);
    w.perm("execute", 3);
    // one constraint: constrain file { write } (u1 == u2)
    w.u32(2);  // permission mask: write
    w.u32(1);  // nexpr
    w.u32(4);  // expr_type = CEXPR_ATTR
    w.u32(1);  // attr = CEXPR_USER
    w.u32(1);  // op = CEXPR_EQ
    w.u32(0);  // nvalidatetrans (v>=19)
    w.u32(0);  // default_user
    w.u32(0);  // default_role
    w.u32(0);  // default_range
    w.u32(0);  // default_type (v>=28)
    assert(w.buf@ =~= old(w).buf@ + minimal_classes());
}

#[verifier::rlimit(60)]
fn write_principals(w: &mut Writer)
    ensures
        final(w).buf@ == old(w).buf@ + minimal_principals(),
{
    // ---- SYM_ROLES: "object_r" ----
    w.u32(1);  // nprim
    w.u32(1);  // nel
    w.u32(Writer::len32("object_r"));  // len
    w.u32(1);  // value
    w.u32(0);  // bounds (v>=24)
    w.key("object_r");
    w.ebitmap_empty();  // dominates
    w.ebitmap_empty();  // types

    // ---- SYM_TYPES: source_t (val 1), target_t (val 2) ----
    w.u32(2);  // nprim
    w.u32(2);  // nel
    w.type_datum("source_t", 1);
    w.type_datum("target_t", 2);

    // ---- SYM_USERS: "system_u" ----
    w.u32(1);  // nprim
    w.u32(1);  // nel
    w.u32(Writer::len32("system_u"));  // len
    w.u32(1);  // value
    w.u32(0);  // bounds (v>=24)
    w.key("system_u");
    w.ebitmap_empty();  // roles
    assert(w.buf@ =~= old(w).buf@ + minimal_principals());
}

#[verifier::rlimit(60)]
fn write_symbols(w: &mut Writer)
    ensures
        final(w).buf@ == old(w).buf@ + minimal_symbols(),
{
    // ---- SYM_COMMONS: none ----
    w.u32(0);  // nprim
    w.u32(0);  // nel
    write_classes(w);
    write_principals(w);
    // ---- SYM_BOOLS / LEVELS / CATS: none ----
    w.u32(0);
    w.u32(0);
    w.u32(0);
    w.u32(0);
    w.u32(0);
    w.u32(0);
    assert(w.buf@ =~= old(w).buf@ + minimal_symbols());
}

#[verifier::rlimit(60)]
fn write_rules(w: &mut Writer)
    ensures
        final(w).buf@ == old(w).buf@ + minimal_rules(),
{
    // ---- Access vector table: allow source_t target_t:file { read write } ----
    w.u32(1);  // nel
    w.u16(1);  // source = source_t
    w.u16(2);  // target = target_t
    w.u16(1);  // tclass = file
    w.u16(1);  // specified = AVTAB_ALLOWED
    w.u32(3);  // perm mask: read(bit0) + write(bit1)

    // ---- Conditional list / role trans / role allow / filename trans ----
    w.u32(0);  // cond list nel
    w.u32(0);  // role transition nel
    w.u32(0);  // role allow nel
    w.u32(0);  // filename transition nel (v>=25, < COMP_FTRANS)

    // No object contexts (oclass_num == 0).
    w.u32(0);  // genfs nel

    // No MLS range transitions (MLS off).

    // ---- Type-attribute map (v>=AVTAB): one ebitmap per type (nprim = 2) ----
    w.ebitmap_empty();
    w.ebitmap_empty();
    assert(w.buf@ =~= old(w).buf@ + minimal_rules());
}

/// Build a minimal version-30, non-MLS policy:
/// types `source_t` (val 1) and `target_t` (val 2), class `file` with perms
/// read/write/execute, one policy capability, and a single
/// `allow source_t target_t:file { read write };` rule.
pub fn minimal_policy() -> (r: Vec<u8>)
    ensures
        r@ == minimal_policy_bytes(),
{
    let mut w = Writer::new();
    write_header(&mut w);
    write_symbols(&mut w);
    write_rules(&mut w);
    assert(w.buf@ =~= minimal_policy_bytes());
    w.buf
}

} // verus!

verus! {

// ---------------------------------------------------------------------------
// Reading back what the writer writes
// ---------------------------------------------------------------------------

/// A 16-bit value written little-endian reads back as itself.
pub proof fn law_u16_roundtrip(v: u16, rest: Seq<u8>)
    ensures
        sp_u16(w16(v) + rest, 0) == Ok::<(u16, nat), (Seq<char>, nat)>((v, 2)),
{
    let d = w16(v) + rest;
    assert(d.subrange(0, 2) =~= w16(v));
    assert((v % 256) as u8 == v % 256);
    assert((v / 256) as u8 == v / 256);
    assert(v % 256 + 256 * (v / 256) == v) by (nonlinear_arith);
}

/// A 32-bit value written little-endian reads back as itself.
pub proof fn law_u32_roundtrip(v: u32, rest: Seq<u8>)
    ensures
        sp_u32(w32(v) + rest, 0) == Ok::<(u32, nat), (Seq<char>, nat)>((v, 4)),
{
    let d = w32(v) + rest;
    assert(d.subrange(0, 4) =~= w32(v));
    lemma_le32_w32(v);
}

proof fn lemma_le32_w32(v: u32)
    ensures
        le32(w32(v)) == v,
{
    let b = w32(v);
    assert(b[0] == v % 256);
    assert(b[1] == v / 256 % 256);
    assert(b[2] == v / 65536 % 256);
    assert(b[3] == v / 16777216);
    assert(v % 256 + 256 * (v / 256 % 256) + 65536 * (v / 65536 % 256) + 16777216 * (v / 16777216) == v)
        by (bit_vector);
}

/// A 64-bit value written little-endian reads back as itself.
pub proof fn law_u64_roundtrip(v: u64, rest: Seq<u8>)
    ensures
        sp_u64(w64(v) + rest, 0) == Ok::<(u64, nat), (Seq<char>, nat)>((v, 8)),
{
    let d = w64(v) + rest;
    let lo = (v % 4294967296) as u32;
    let hi = (v / 4294967296) as u32;
    assert(d.subrange(0, 8) =~= w64(v));
    assert(w64(v).subrange(0, 4) =~= w32(lo));
    assert(w64(v).subrange(4, 8) =~= w32(hi));
    lemma_le32_w32(lo);
    lemma_le32_w32(hi);
    assert(lo + 4294967296 * hi == v) by (nonlinear_arith)
        requires
            lo == v % 4294967296,
            hi == v / 4294967296,
    ;
}

/// The UTF-8 encoding of a scalar other than NUL has no zero byte.
proof fn lemma_scalar_nonzero(c: u32)
    requires
        is_scalar(c),
        c != 0,
    ensures
        forall|i: int| 0 <= i < encode_scalar(c).len() ==> encode_scalar(c)[i] != 0,
{
    if has_width_1_encoding(c) {
        assert((c & 0x7F) as u8 != 0) by (bit_vector)
            requires
                1 <= c <= 0x7F,
        ;
    } else {
        assert((0xC0u8 | ((c >> 6) & 0x1F) as u8) != 0) by (bit_vector);
        assert((0xE0u8 | ((c >> 12) & 0x0F) as u8) != 0) by (bit_vector);
        assert((0xF0u8 | ((c >> 18) & 0x7) as u8) != 0) by (bit_vector);
        assert((0x80u8 | (c & 0x3F) as u8) != 0) by (bit_vector);
        assert((0x80u8 | ((c >> 6) & 0x3F) as u8) != 0) by (bit_vector);
        assert((0x80u8 | ((c >> 12) & 0x3F) as u8) != 0) by (bit_vector);
    }
}

/// Text without NUL characters encodes to bytes without zeros.
proof fn lemma_encode_no_zero(s: Seq<char>)
    requires
        forall|i: int| 0 <= i < s.len() ==> s[i] != '\0',
    ensures
        forall|j: int| 0 <= j < encode_utf8(s).len() ==> encode_utf8(s)[j] != 0,
    decreases s.len(),
{
    if s.len() > 0 {
        let c = s[0] as u32;
        char_is_scalar(s[0]);
        char_u32_cast(s[0], c);
        assert(s[0] != '\0');
        assert(c != 0) by {
            if c == 0 {
                assert((0u32 as char) == '\0');
            }
        }
        lemma_scalar_nonzero(c);
        lemma_encode_no_zero(s.drop_first());
        let e = encode_scalar(c);
        let t = encode_utf8(s.drop_first());
        assert(encode_utf8(s) == e + t);
        assert forall|j: int| 0 <= j < encode_utf8(s).len() implies encode_utf8(s)[j] != 0 by {
            if j < e.len() {
                assert(encode_utf8(s)[j] == e[j]);
            } else {
                assert(encode_utf8(s)[j] == t[j - e.len()]);
            }
        }
    }
}

/// Bytes without zeros have no NUL before their end.
proof fn lemma_nul_index_at(b: Seq<u8>, i: nat, k: nat)
    requires
        i <= k <= b.len(),
        forall|j: int| i <= j < k ==> b[j] != 0,
        k == b.len() || b[k as int] == 0,
    ensures
        nul_index(b, i) == k,
    decreases k - i,
{
    if i < k {
        lemma_nul_index_at(b, i + 1, k);
    }
}

/// A string without NUL characters, written with its length, reads back as
/// itself.
pub proof fn law_string_roundtrip(s: Seq<char>, rest: Seq<u8>)
    requires
        forall|i: int| 0 <= i < s.len() ==> s[i] != '\0',
        encode_utf8(s).len() <= u32::MAX,
    ensures
        sp_string(wstring(s) + rest, 0) == Ok::<(Seq<char>, nat), (Seq<char>, nat)>(
            (s, 4 + encode_utf8(s).len()),
        ),
{
    let e = encode_utf8(s);
    let n = e.len() as u32;
    let d = wstring(s) + rest;
    assert(d =~= w32(n) + (e + rest));
    law_u32_roundtrip(n, e + rest);
    lemma_encode_no_zero(s);
    lemma_nul_index_at(e, 0, e.len());
    assert(d.subrange(4, 4 + n) =~= e);
    assert(until_nul(e) =~= e);
    encode_utf8_valid_utf8(s);
    encode_utf8_decode_utf8(s);
    if n == 0 {
        assert(s.len() == 0) by {
            if s.len() > 0 {
                char_is_scalar(s[0]);
                assert(encode_utf8(s) == encode_scalar(s[0] as u32) + encode_utf8(s.drop_first()));
            }
        }
        assert(s =~= Seq::<char>::empty());
    }
}

/// A string without NUL characters, written with a length that counts a
/// trailing NUL and followed by that NUL, reads back as itself, the NUL
/// consumed.
pub proof fn law_string_with_nul_roundtrip(s: Seq<char>, rest: Seq<u8>)
    requires
        forall|i: int| 0 <= i < s.len() ==> s[i] != '\0',
        encode_utf8(s).len() + 1 <= u32::MAX,
    ensures
        sp_string(w32((encode_utf8(s).len() + 1) as u32) + encode_utf8(s) + seq![0u8] + rest, 0)
            == Ok::<(Seq<char>, nat), (Seq<char>, nat)>((s, 5 + encode_utf8(s).len())),
{
    let e = encode_utf8(s);
    let n = (e.len() + 1) as u32;
    let z = e + seq![0u8];
    let d = w32(n) + e + seq![0u8] + rest;
    assert(d =~= w32(n) + (z + rest));
    law_u32_roundtrip(n, z + rest);
    lemma_encode_no_zero(s);
    lemma_nul_index_at(z, 0, e.len());
    assert(d.subrange(4, 4 + n) =~= z);
    assert(until_nul(z) =~= e);
    encode_utf8_valid_utf8(s);
    encode_utf8_decode_utf8(s);
}

/// The bits of ebitmap nodes, node by node.
pub open spec fn node_bits(nodes: Seq<(u32, u64)>) -> Seq<u32>
    decreases nodes.len(),
{
    if nodes.len() == 0 {
        Seq::empty()
    } else {
        node_bits(nodes.drop_last()) + map_bits(nodes.last().0, nodes.last().1, 64)
    }
}

proof fn lemma_u32_at(d: Seq<u8>, p: nat, v: u32)
    requires
        p + 4 <= d.len(),
        d.subrange(p as int, (p + 4) as int) == w32(v),
    ensures
        sp_u32(d, p) == Ok::<(u32, nat), (Seq<char>, nat)>((v, p + 4)),
{
    lemma_le32_w32(v);
}

proof fn lemma_u64_at(d: Seq<u8>, p: nat, v: u64)
    requires
        p + 8 <= d.len(),
        d.subrange(p as int, (p + 8) as int) == w64(v),
    ensures
        sp_u64(d, p) == Ok::<(u64, nat), (Seq<char>, nat)>((v, p + 8)),
{
    law_u64_roundtrip(v, Seq::empty());
    assert(w64(v) + Seq::<u8>::empty() =~= w64(v));
    assert((w64(v) + Seq::<u8>::empty()).subrange(0, 8) =~= d.subrange(p as int, (p + 8) as int));
}

/// Node `k` of the written nodes sits twelve bytes per node in.
proof fn lemma_wnodes_layout(nodes: Seq<(u32, u64)>)
    ensures
        wnodes(nodes).len() == 12 * nodes.len(),
        forall|k: int| 0 <= k < nodes.len() ==> #[trigger] wnodes(nodes).subrange(12 * k, 12 * k + 12)
            == w32(nodes[k].0) + w64(nodes[k].1),
    decreases nodes.len(),
{
    if nodes.len() > 0 {
        let pre = nodes.drop_last();
        lemma_wnodes_layout(pre);
        let w = wnodes(nodes);
        let last = w32(nodes.last().0) + w64(nodes.last().1);
        assert(w =~= wnodes(pre) + last);
        assert forall|k: int| 0 <= k < nodes.len() implies #[trigger] wnodes(nodes).subrange(12 * k, 12 * k + 12)
            == w32(nodes[k].0) + w64(nodes[k].1) by {
            if k < pre.len() {
                assert(wnodes(pre).subrange(12 * k, 12 * k + 12) == w32(pre[k].0) + w64(pre[k].1));
                assert(w.subrange(12 * k, 12 * k + 12) =~= wnodes(pre).subrange(12 * k, 12 * k + 12));
            } else {
                assert(w.subrange(12 * k, 12 * k + 12) =~= last);
            }
        }
    }
}

/// Reading the first `k` nodes gives their bits.
#[verifier::spinoff_prover]
#[verifier::rlimit(40)]
proof fn lemma_read_nodes(d: Seq<u8>, nodes: Seq<(u32, u64)>, k: nat)
    requires
        k <= nodes.len(),
        d.len() >= 12 + 12 * nodes.len(),
        d.subrange(12, (12 + 12 * nodes.len()) as int) == wnodes(nodes),
    ensures
        sp_nodes(d, 12, k) == Ok::<(Seq<u32>, nat), (Seq<char>, nat)>((node_bits(nodes.take(k as int)), 12 + 12 * k)),
    decreases k,
{
    if k == 0 {
        assert(nodes.take(0) =~= Seq::<(u32, u64)>::empty());
    } else {
        let j = (k - 1) as int;
        lemma_read_nodes(d, nodes, (k - 1) as nat);
        lemma_wnodes_layout(nodes);
        let q = 12 + 12 * j;
        assert(wnodes(nodes).subrange(12 * j, 12 * j + 12) == w32(nodes[j].0) + w64(nodes[j].1));
        assert(d.subrange(q, q + 4) =~= w32(nodes[j].0)) by {
            assert(d.subrange(q, q + 4) =~= wnodes(nodes).subrange(12 * j, 12 * j + 12).subrange(0, 4));
        }
        assert(d.subrange(q + 4, q + 12) =~= w64(nodes[j].1)) by {
            assert(d.subrange(q + 4, q + 12) =~= wnodes(nodes).subrange(12 * j, 12 * j + 12).subrange(4, 12));
        }
        lemma_u32_at(d, q as nat, nodes[j].0);
        lemma_u64_at(d, (q + 4) as nat, nodes[j].1);
        assert(nodes.take(k as int).drop_last() =~= nodes.take(j));
        assert(nodes.take(k as int).last() == nodes[j]);
    }
}

/// An ebitmap written with a nonzero high bit reads back as the bits of its
/// nodes, in order.
pub proof fn law_ebitmap_roundtrip(highbit: u32, nodes: Seq<(u32, u64)>, rest: Seq<u8>)
    requires
        highbit != 0,
        nodes.len() <= u32::MAX,
    ensures
        sp_ebitmap(wbitmap(highbit, nodes) + rest, 0) == Ok::<(Seq<u32>, nat), (Seq<char>, nat)>(
            (node_bits(nodes), 12 + 12 * nodes.len()),
        ),
{
    let n = nodes.len() as u32;
    let d = wbitmap(highbit, nodes) + rest;
    lemma_wnodes_layout(nodes);
    assert(d.subrange(0, 4) =~= w32(64));
    assert(d.subrange(4, 8) =~= w32(highbit));
    assert(d.subrange(8, 12) =~= w32(n));
    assert(d.subrange(12, (12 + 12 * nodes.len()) as int) =~= wnodes(nodes));
    lemma_u32_at(d, 0, 64);
    lemma_u32_at(d, 4, highbit);
    lemma_u32_at(d, 8, n);
    lemma_read_nodes(d, nodes, nodes.len());
    assert(nodes.take(nodes.len() as int) =~= nodes);
}

/// An empty ebitmap reads back as no bits.
pub proof fn law_empty_ebitmap_roundtrip(rest: Seq<u8>)
    ensures
        sp_ebitmap(wbitmap_empty() + rest, 0) == Ok::<(Seq<u32>, nat), (Seq<char>, nat)>((Seq::empty(), 12)),
{
    let d = wbitmap_empty() + rest;
    assert(d.subrange(0, 4) =~= w32(64));
    assert(d.subrange(4, 8) =~= w32(0));
    assert(d.subrange(8, 12) =~= w32(0));
    lemma_u32_at(d, 0, 64);
    lemma_u32_at(d, 4, 0);
    lemma_u32_at(d, 8, 0);
}

} // verus!
