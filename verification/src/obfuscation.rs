//! Keyed, position-dependent, symmetric byte transform.
//!
//! For each byte position `j` of the stream the transform XORs the data
//! byte with `key[j % key.len()] ^ modifier(j)`, where the modifier is
//! one of three pluggable strategies. Applying the transform twice with
//! the same offset restores the input.
//!
//! This is obfuscation, not encryption: it defeats static signature
//! matching, not an adversary who can search the key space.

use vstd::prelude::*;
use crate::util::slice_eq;
use vstd::string::StringSliceAdditionalSpecFns;

verus! {

/// Modifier strategies: how the byte position contributes to the keystream.
#[derive(Debug, Clone, Copy)]
pub enum ModifierStrategy {
    /// `modifier(j) = (j * salt) % 256`
    PositionalXorRotate,
    /// `modifier(j) = rotate_left_32(salt, j % 32) % 256`
    RotatingSalt,
    /// `modifier(j) = table[(j + salt) % 256]`
    SubstitutionTable,
}

/// Left rotation of a 32-bit value by `k` positions, `k < 32`.
pub open spec fn rotl32(x: u32, k: u32) -> u32
    recommends
        k < 32,
{
    if k == 0 {
        x
    } else {
        (x << k) | (x >> ((32 - k) as u32))
    }
}

/// One step of the linear congruential generator that derives the
/// substitution table, already mixed with the key byte of this step.
pub open spec fn lcg_step(state: u32, key_byte: u8) -> u32 {
    (((state * 1664525 + 1013904223) % 0x1_0000_0000) as u32) ^ (key_byte as u32)
}

/// Generator state after `i` steps, starting from the salt.
pub open spec fn table_state(key: Seq<u8>, salt: u32, i: nat) -> u32
    decreases i,
{
    if i == 0 {
        salt
    } else {
        lcg_step(table_state(key, salt, (i - 1) as nat), key[((i - 1) as nat % key.len()) as int])
    }
}

/// Entry `i` of the substitution table derived from `key` and `salt`.
pub open spec fn table_entry(key: Seq<u8>, salt: u32, i: nat) -> u8 {
    ((table_state(key, salt, i + 1) >> 16) & 0xFF) as u8
}

/// The whole 256-byte substitution table: a pure function of key and salt,
/// so the table is the same wherever it is rebuilt from the same inputs.
pub open spec fn spec_sub_table(key: Seq<u8>, salt: u32) -> Seq<u8> {
    Seq::new(256, |i: int| table_entry(key, salt, i as nat))
}

/// The modifier byte for stream position `j`.
pub open spec fn modifier_byte(
    strategy: ModifierStrategy,
    salt: u32,
    table: Seq<u8>,
    j: nat,
) -> u8 {
    match strategy {
        ModifierStrategy::PositionalXorRotate => ((j * salt) % 256) as u8,
        ModifierStrategy::RotatingSalt => (rotl32(salt, (j % 32) as u32) & 0xFF) as u8,
        ModifierStrategy::SubstitutionTable => table[((j + salt) % 256) as int],
    }
}

/// Obfuscation context, created once from the configuration and shared
/// read-only by every connection.
#[derive(Debug, Clone)]
pub struct Obfuscator {
    key: Vec<u8>,
    salt: u32,
    strategy: ModifierStrategy,
    /// Pre-computed 256-byte table, used by the `SubstitutionTable` strategy.
    sub_table: Vec<u8>,
}

impl Obfuscator {
    /// The key is non-empty and the table is the one derived from key and salt.
    pub closed spec fn wf(&self) -> bool {
        &&& self.key@.len() > 0
        &&& self.sub_table@ == spec_sub_table(self.key@, self.salt)
    }

    pub closed spec fn spec_key(&self) -> Seq<u8> {
        self.key@
    }

    pub closed spec fn spec_salt(&self) -> u32 {
        self.salt
    }

    pub closed spec fn spec_strategy(&self) -> ModifierStrategy {
        self.strategy
    }

    /// The substitution table the context carries.
    pub closed spec fn spec_table(&self) -> Seq<u8> {
        self.sub_table@
    }

    /// Byte `j` of the keystream: the key byte at `j`, folded with the modifier.
    pub closed spec fn stream_byte(&self, j: nat) -> u8 {
        self.key@[(j % self.key@.len()) as int] ^ modifier_byte(
            self.strategy,
            self.salt,
            self.sub_table@,
            j,
        )
    }

    /// The transform as a function on byte sequences, starting at `offset`.
    pub closed spec fn apply_seq(&self, s: Seq<u8>, offset: u32) -> Seq<u8> {
        Seq::new(s.len(), |i: int| s[i] ^ self.stream_byte((offset + i) as nat))
    }

    pub fn new(key: Vec<u8>, salt: u32, strategy: ModifierStrategy) -> (r: Obfuscator)
        requires
            key@.len() > 0,
        ensures
            r.wf(),
            r.spec_key() == key@,
            r.spec_salt() == salt,
            r.spec_strategy() == strategy,
            r.spec_table() == spec_sub_table(key@, salt),
    {
        let mut sub_table: Vec<u8> = Vec::new();
        let mut state: u32 = salt;
        let mut i: usize = 0;
        while i < 256
            invariant
                key@.len() > 0,
                i <= 256,
                state == table_state(key@, salt, i as nat),
                sub_table@.len() == i,
                forall|k: int| 0 <= k < i ==> sub_table@[k] == table_entry(key@, salt, k as nat),
            decreases 256 - i,
        {
            state = state.wrapping_mul(1664525).wrapping_add(1013904223);
            state = state ^ (key[i % key.len()] as u32);
            proof {
                lemma_wrapping_lcg(table_state(key@, salt, i as nat), key@[(i as nat % key@.len()) as int]);
            }
            sub_table.push(((state >> 16) & 0xFF) as u8);
            i = i + 1;
        }
        proof {
            assert(sub_table@ =~= spec_sub_table(key@, salt));
        }
        Obfuscator { key, salt, strategy, sub_table }
    }

    /// Obfuscate or deobfuscate `data` in place; XOR makes the two the same
    /// operation. `offset` comes from the frame nonce, so that every frame
    /// uses a different keystream alignment.
    pub fn apply(&self, data: &mut Vec<u8>, offset: u32)
        requires
            self.wf(),
        ensures
            final(data)@ == self.apply_seq(old(data)@, offset),
    {
        let key_len = self.key.len();
        let mut i: usize = 0;
        while i < data.len()
            invariant
                self.wf(),
                key_len == self.key@.len(),
                i <= data@.len(),
                data@.len() == old(data)@.len(),
                forall|k: int| 0 <= k < i ==> data@[k] == old(data)@[k] ^ self.stream_byte(
                    (offset + k) as nat,
                ),
                forall|k: int| i <= k < data@.len() ==> data@[k] == old(data)@[k],
            decreases data@.len() - i,
        {
            let pos: u128 = (i as u128) + (offset as u128);
            let key_byte = self.key[(pos % (key_len as u128)) as usize];
            let mod_byte = self.modifier(pos);
            data[i] = data[i] ^ (key_byte ^ mod_byte);
            i = i + 1;
        }
        proof {
            assert(data@ =~= self.apply_seq(old(data)@, offset));
        }
    }

    /// The modifier byte for stream position `pos`.
    fn modifier(&self, pos: u128) -> (r: u8)
        requires
            self.wf(),
            pos <= u64::MAX as u128 + u32::MAX as u128,
        ensures
            r == modifier_byte(self.strategy, self.salt, self.sub_table@, pos as nat),
    {
        match self.strategy {
            ModifierStrategy::PositionalXorRotate => {
                let jm: u128 = pos % 256;
                let sm: u128 = (self.salt as u128) % 256;
                proof {
                    vstd::arithmetic::mul::lemma_mul_upper_bound(jm as int, 255, sm as int, 255);
                    lemma_mul_mod_256(pos as nat, self.salt as nat);
                }
                ((jm * sm) % 256) as u8
            },
            ModifierStrategy::RotatingSalt => {
                let k: u32 = (pos % 32) as u32;
                let rotated: u32 = if k == 0 {
                    self.salt
                } else {
                    (self.salt << k) | (self.salt >> (32 - k))
                };
                proof {
                    lemma_mask_byte_fits(rotated);
                }
                (rotated & 0xFF) as u8
            },
            ModifierStrategy::SubstitutionTable => {
                let idx: usize = ((pos + (self.salt as u128)) % 256) as usize;
                self.sub_table[idx]
            },
        }
    }
}

/// `x & 0xFF` is a byte.
proof fn lemma_mask_byte_fits(x: u32)
    by (bit_vector)
    ensures
        (x & 0xFF) < 256,
{
}

/// The wrapping operations of the table loop compute `lcg_step`.
proof fn lemma_wrapping_lcg(state: u32, key_byte: u8)
    by (bit_vector)
    ensures
        state.wrapping_mul(1664525).wrapping_add(1013904223) ^ (key_byte as u32) == lcg_step(
            state,
            key_byte,
        ),
        ((lcg_step(state, key_byte) >> 16) & 0xFF) < 256,
{
}

/// Multiplying the residues modulo 256 gives the product's residue.
proof fn lemma_mul_mod_256(j: nat, s: nat)
    ensures
        ((j % 256) * (s % 256)) % 256 == (j * s) % 256,
{
    vstd::arithmetic::div_mod::lemma_mul_mod_noop_general(j as int, s as int, 256);
}

impl ModifierStrategy {
    /// Parse the configuration name of a strategy.
    pub fn from_str(s: &str) -> (r: Option<ModifierStrategy>)
        ensures
            r == spec_strategy_of(s.spec_bytes()),
    {
        if slice_eq(s.as_bytes(), "positional_xor_rotate".as_bytes()) {
            Some(ModifierStrategy::PositionalXorRotate)
        } else if slice_eq(s.as_bytes(), "rotating_salt".as_bytes()) {
            Some(ModifierStrategy::RotatingSalt)
        } else if slice_eq(s.as_bytes(), "substitution_table".as_bytes()) {
            Some(ModifierStrategy::SubstitutionTable)
        } else {
            None
        }
    }
}

/// Which strategy a configuration name (as UTF-8 bytes) denotes.
pub open spec fn spec_strategy_of(s: Seq<u8>) -> Option<ModifierStrategy> {
    if s == "positional_xor_rotate".spec_bytes() {
        Some(ModifierStrategy::PositionalXorRotate)
    } else if s == "rotating_salt".spec_bytes() {
        Some(ModifierStrategy::RotatingSalt)
    } else if s == "substitution_table".spec_bytes() {
        Some(ModifierStrategy::SubstitutionTable)
    } else {
        None
    }
}

/// The substitution table is deterministic: two contexts built over the
/// same key and salt carry the same table, wherever they were built.
pub proof fn lemma_sub_table_deterministic(a: Obfuscator, b: Obfuscator)
    requires
        a.wf(),
        b.wf(),
        a.spec_key() == b.spec_key(),
        a.spec_salt() == b.spec_salt(),
    ensures
        a.spec_table() == b.spec_table(),
{
}

/// The transform keeps the length of what it is applied to.
pub broadcast proof fn lemma_apply_seq_len(ob: Obfuscator, s: Seq<u8>, offset: u32)
    ensures
        #[trigger] ob.apply_seq(s, offset).len() == s.len(),
{
}

/// Applying the transform twice with the same offset restores the input,
/// for every key, salt, strategy, offset and buffer.
pub proof fn lemma_apply_involution(ob: Obfuscator, s: Seq<u8>, offset: u32)
    requires
        ob.wf(),
    ensures
        ob.apply_seq(ob.apply_seq(s, offset), offset) == s,
{
    let once = ob.apply_seq(s, offset);
    let twice = ob.apply_seq(once, offset);
    assert forall|i: int| 0 <= i < s.len() implies twice[i] == s[i] by {
        let k = ob.stream_byte((offset + i) as nat);
        let b = s[i];
        assert((b ^ k) ^ k == b) by (bit_vector);
    }
    assert(twice =~= s);
}

} // verus!
