//! Decoding of the bit-packed modifier word of the keyboard-accessibility
//! wire protocol.
//!
//! One 32-bit word carries both real hardware modifier state and an ordered,
//! client-declared list of abstract "virtual" modifiers: the low
//! [`VIRTUAL_MOD_START`] bits are the real modifier mask, and bit
//! `VIRTUAL_MOD_START + i` says whether the `i`-th symbol of the client's
//! virtual-modifier list is active. Bits at or beyond position 32 cannot be
//! carried by the word and are unobservable.

use vstd::prelude::*;

use crate::ids::Keysym;

verus! {

/// Bit index where the virtual-modifier bits begin inside the packed word;
/// the protocol fixes this constant.
pub const VIRTUAL_MOD_START: u32 = 15;

/// One concrete key-plus-modifier combination a client wants intercepted:
/// a real modifier mask, a set of virtual-modifier symbols (kept as the
/// decoded list; its order carries no meaning), and the key itself.
#[derive(Debug)]
pub struct KeyGrab {
    pub mods: u32,
    pub virtual_mods: Vec<Keysym>,
    pub key: Keysym,
}

/// Mathematical view of a [`KeyGrab`]: the virtual modifiers as a set.
#[verifier::ext_equal]
pub ghost struct GrabView {
    pub mods: u32,
    pub virtual_mods: Set<Keysym>,
    pub key: Keysym,
}

impl View for KeyGrab {
    type V = GrabView;

    open spec fn view(&self) -> GrabView {
        GrabView {
            mods: self.mods,
            virtual_mods: self.virtual_mods@.to_set(),
            key: self.key,
        }
    }
}

/// The mask that keeps the low `v` bits of a word.
pub open spec fn low_mask(v: u32) -> u32
    recommends
        v < 32,
{
    ((1u32 << v) - 1) as u32
}

/// Whether bit `i` of `raw` is set; bits at or beyond position 32 count as
/// unset, since a 32-bit word cannot carry them.
pub open spec fn bit_set(raw: u32, i: int) -> bool {
    0 <= i < 32 && (raw >> (i as u32)) & 1u32 == 1u32
}

/// The symbols of `syms` selected by the bits of `raw` starting at bit `b`:
/// `syms[i]` is kept exactly when bit `b + i` of `raw` is set.
pub open spec fn selected_mods(syms: Seq<Keysym>, raw: u32, b: u32) -> Seq<Keysym>
    decreases syms.len(),
{
    if syms.len() == 0 {
        Seq::empty()
    } else {
        let prefix = selected_mods(syms.drop_last(), raw, b);
        if bit_set(raw, b + syms.len() - 1) {
            prefix.push(syms.last())
        } else {
            prefix
        }
    }
}

/// The view a packed keystroke decodes to under the protocol's fixed
/// virtual-modifier start bit.
pub open spec fn spec_decode(syms: Seq<Keysym>, key: Keysym, raw: u32) -> GrabView {
    GrabView {
        mods: raw & low_mask(VIRTUAL_MOD_START),
        virtual_mods: selected_mods(syms, raw, VIRTUAL_MOD_START).to_set(),
        key,
    }
}

/// Decode one packed keystroke: split `raw_mods` into the real modifier mask
/// (its low [`VIRTUAL_MOD_START`] bits) and the virtual-modifier symbols
/// selected by the remaining bits.
pub fn decode(virtual_mods: &Vec<Keysym>, key: Keysym, raw_mods: u32) -> (r: KeyGrab)
    ensures
        r.key == key,
        r.mods == raw_mods & low_mask(VIRTUAL_MOD_START),
        r.virtual_mods@ == selected_mods(virtual_mods@, raw_mods, VIRTUAL_MOD_START),
        r@ == spec_decode(virtual_mods@, key, raw_mods),
{
    decode_from(virtual_mods, key, raw_mods, VIRTUAL_MOD_START)
}

/// Decode with an arbitrary virtual-modifier start bit `v`. The protocol
/// fixes the start bit, but the split itself is stated and proved for every
/// start bit and every list length: bits at or beyond position 32 select
/// nothing.
pub fn decode_from(virtual_mods: &Vec<Keysym>, key: Keysym, raw_mods: u32, v: u32) -> (r: KeyGrab)
    requires
        v < 32,
    ensures
        r.key == key,
        r.mods == raw_mods & low_mask(v),
        r.virtual_mods@ == selected_mods(virtual_mods@, raw_mods, v),
{
    proof {
        assert(1u32 << v >= 1) by (bit_vector)
            requires
                v < 32,
        ;
    }
    let mods = raw_mods & ((1u32 << v) - 1);
    let mut selected: Vec<Keysym> = Vec::new();
    let mut i: usize = 0;
    while i < virtual_mods.len()
        invariant
            v < 32,
            i <= virtual_mods@.len(),
            selected@ == selected_mods(virtual_mods@.take(i as int), raw_mods, v),
        decreases virtual_mods@.len() - i,
    {
        if i < 32 && v + (i as u32) < 32 {
            let bit: u32 = v + i as u32;
            if (raw_mods >> bit) & 1 == 1 {
                selected.push(virtual_mods[i]);
            }
        }
        proof {
            let taken = virtual_mods@.take(i as int + 1);
            assert(taken.drop_last() =~= virtual_mods@.take(i as int));
            assert(taken.last() == virtual_mods@[i as int]);
        }
        i = i + 1;
    }
    proof {
        assert(virtual_mods@.take(virtual_mods@.len() as int) =~= virtual_mods@);
    }
    KeyGrab { mods, virtual_mods: selected, key }
}

/// Law: the decoded virtual-modifier list holds a symbol exactly when the
/// client's list holds it at some position whose bit, counted from the start
/// bit `b`, is set in the packed word. Together with the mask clause of
/// [`decode_from`], this pins down the whole bit split, for every start bit
/// and every list length.
pub proof fn lemma_selected_mods_membership(syms: Seq<Keysym>, raw: u32, b: u32, x: Keysym)
    ensures
        selected_mods(syms, raw, b).contains(x) <==> exists|i: int|
            0 <= i < syms.len() && syms[i] == x && #[trigger] bit_set(raw, b + i),
    decreases syms.len(),
{
    if syms.len() == 0 {
    } else {
        let prefix = syms.drop_last();
        lemma_selected_mods_membership(prefix, raw, b, x);
        let n = syms.len() - 1;
        assert(forall|i: int| 0 <= i < n ==> prefix[i] == syms[i]);
        if bit_set(raw, b + n) {
            let sel = selected_mods(prefix, raw, b).push(syms.last());
            assert(selected_mods(syms, raw, b) == sel);
            if sel.contains(x) {
                let k = choose|k: int| 0 <= k < sel.len() && sel[k] == x;
                if k < sel.len() - 1 {
                    assert(selected_mods(prefix, raw, b)[k] == x);
                } else {
                    assert(syms[n] == x && bit_set(raw, b + n));
                }
            }
            if exists|i: int| 0 <= i < syms.len() && syms[i] == x && #[trigger] bit_set(raw, b + i) {
                let i = choose|i: int|
                    0 <= i < syms.len() && syms[i] == x && #[trigger] bit_set(raw, b + i);
                if i < n {
                    assert(selected_mods(prefix, raw, b).contains(x));
                    let k = choose|k: int|
                        0 <= k < selected_mods(prefix, raw, b).len()
                            && selected_mods(prefix, raw, b)[k] == x;
                    assert(sel[k] == x);
                } else {
                    assert(sel.last() == x);
                }
            }
        } else {
            if exists|i: int| 0 <= i < syms.len() && syms[i] == x && #[trigger] bit_set(raw, b + i) {
                let i = choose|i: int|
                    0 <= i < syms.len() && syms[i] == x && #[trigger] bit_set(raw, b + i);
                assert(i < n);
            }
        }
    }
}

} // verus!
