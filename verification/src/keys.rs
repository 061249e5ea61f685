//! Modifier keys, key combinations and the table that binds them to commands.

use crate::cmd::{Command, CommandView};
use std::collections::HashMap;
use vstd::prelude::*;
use vstd::std_specs::iter::IteratorSpec;

verus! {

broadcast use vstd::std_specs::hash::group_hash_axioms;

pub const MOD_MASK_SHIFT: u32 = 1;

pub const MOD_MASK_LOCK: u32 = 2;

pub const MOD_MASK_CONTROL: u32 = 4;

pub const MOD_MASK_1: u32 = 8;

pub const MOD_MASK_2: u32 = 16;

pub const MOD_MASK_3: u32 = 32;

pub const MOD_MASK_4: u32 = 64;

pub const MOD_MASK_5: u32 = 128;

/// Represents a modifier key.
#[derive(Copy, Clone, Debug, PartialEq, Eq, PartialOrd, Ord, Structural)]
pub enum ModKey {
    Shift,
    Lock,
    Control,
    Mod1,
    Mod2,
    Mod3,
    Mod4,
    Mod5,
}

impl ModKey {
    /// The bits of all modifier keys together.
    pub open spec fn spec_mask_all() -> u32 {
        MOD_MASK_SHIFT | MOD_MASK_LOCK | MOD_MASK_CONTROL | MOD_MASK_1 | MOD_MASK_2 | MOD_MASK_3
            | MOD_MASK_4 | MOD_MASK_5
    }

    /// The bit that stands for the modifier key in the state of a key event.
    pub open spec fn spec_mask(self) -> u32 {
        match self {
            ModKey::Shift => MOD_MASK_SHIFT,
            ModKey::Lock => MOD_MASK_LOCK,
            ModKey::Control => MOD_MASK_CONTROL,
            ModKey::Mod1 => MOD_MASK_1,
            ModKey::Mod2 => MOD_MASK_2,
            ModKey::Mod3 => MOD_MASK_3,
            ModKey::Mod4 => MOD_MASK_4,
            ModKey::Mod5 => MOD_MASK_5,
        }
    }

    /// The bits of all modifier keys together.
    #[verifier::when_used_as_spec(spec_mask_all)]
    pub fn mask_all() -> (mask: u32)
        ensures
            mask == Self::spec_mask_all(),
            mask == 255,
    {
        assert((1u32 | 2 | 4 | 8 | 16 | 32 | 64 | 128) == 255) by (bit_vector);
        MOD_MASK_SHIFT | MOD_MASK_LOCK | MOD_MASK_CONTROL | MOD_MASK_1 | MOD_MASK_2 | MOD_MASK_3
            | MOD_MASK_4 | MOD_MASK_5
    }

    /// The bit that stands for the modifier key in the state of a key event.
    #[verifier::when_used_as_spec(spec_mask)]
    pub fn mask(self) -> (mask: u32)
        ensures
            mask == self.spec_mask(),
    {
        match self {
            ModKey::Shift => MOD_MASK_SHIFT,
            ModKey::Lock => MOD_MASK_LOCK,
            ModKey::Control => MOD_MASK_CONTROL,
            ModKey::Mod1 => MOD_MASK_1,
            ModKey::Mod2 => MOD_MASK_2,
            ModKey::Mod3 => MOD_MASK_3,
            ModKey::Mod4 => MOD_MASK_4,
            ModKey::Mod5 => MOD_MASK_5,
        }
    }
}

/// A combination of zero or more mods and a key.
#[derive(Copy, Clone, Debug, Eq, Hash, PartialEq, Structural)]
pub struct KeyCombo {
    pub mod_mask: u32,
    pub keysym: u32,
}

/// The bits of the modifier keys of `mods` together.
pub open spec fn mask_of(mods: Seq<ModKey>) -> u32
    decreases mods.len(),
{
    if mods.len() == 0 {
        0
    } else {
        mask_of(mods.drop_last()) | mods.last().spec_mask()
    }
}

/// The bits of modifier keys lie within the bits of all modifier keys: masking
/// the state of a key event with those leaves a combination of modifier keys
/// as it is.
pub proof fn lemma_mask_of_within_all(mods: Seq<ModKey>)
    ensures
        mask_of(mods) & ModKey::spec_mask_all() == mask_of(mods),
    decreases mods.len(),
{
    assert(ModKey::spec_mask_all() == 255) by {
        assert((1u32 | 2 | 4 | 8 | 16 | 32 | 64 | 128) == 255) by (bit_vector);
    }
    if mods.len() == 0 {
        assert(0u32 & 255 == 0) by (bit_vector);
    } else {
        lemma_mask_of_within_all(mods.drop_last());
        let rest = mask_of(mods.drop_last());
        let bit = mods.last().spec_mask();
        assert(bit == 1 || bit == 2 || bit == 4 || bit == 8 || bit == 16 || bit == 32 || bit == 64
            || bit == 128);
        assert((rest | bit) & 255 == rest | bit) by (bit_vector)
            requires
                rest & 255 == rest,
                bit == 1 || bit == 2 || bit == 4 || bit == 8 || bit == 16 || bit == 32 || bit
                    == 64 || bit == 128,
        ;
    }
}

impl KeyCombo {
    /// The combination of the key `keysym` with the modifier keys `mods`.
    pub fn new(mods: &[ModKey], keysym: u32) -> (combo: KeyCombo)
        ensures
            combo.mod_mask == mask_of(mods@),
            combo.keysym == keysym,
    {
        let mut mod_mask: u32 = 0;
        let mut index: usize = 0;
        while index < mods.len()
            invariant
                index <= mods@.len(),
                mod_mask == mask_of(mods@.take(index as int)),
            decreases mods@.len() - index,
        {
            proof {
                assert(mods@.take(index + 1).drop_last() =~= mods@.take(index as int));
            }
            mod_mask = mod_mask | mods[index].mask();
            index = index + 1;
        }
        assert(mods@.take(mods@.len() as int) =~= mods@);
        KeyCombo { mod_mask, keysym }
    }

    /// The number that stands for the combination in the key table: no two
    /// combinations share one.
    pub open spec fn spec_code(&self) -> u64 {
        (self.mod_mask as u64 * 0x1_0000_0000 + self.keysym as u64) as u64
    }

    #[verifier::when_used_as_spec(spec_code)]
    pub fn code(&self) -> (code: u64)
        ensures
            code == self.spec_code(),
    {
        self.mod_mask as u64 * 0x1_0000_0000 + self.keysym as u64
    }

    /// The combination that `code` stands for.
    pub fn from_code(code: u64) -> (combo: KeyCombo)
        ensures
            combo.mod_mask == code / 0x1_0000_0000,
            combo.keysym == code % 0x1_0000_0000,
            combo.spec_code() == code,
    {
        KeyCombo {
            mod_mask: (code / 0x1_0000_0000) as u32,
            keysym: (code % 0x1_0000_0000) as u32,
        }
    }

    /// A combination is found again from its code.
    pub proof fn lemma_code_injective(self, other: KeyCombo)
        ensures
            self.spec_code() == other.spec_code() <==> self == other,
    {
    }
}

/// The key table: what each bound key combination does.
pub struct KeyHandlers {
    // Each command stands under the code of its combination.
    hashmap: HashMap<u64, Command>,
}

impl View for KeyHandlers {
    type V = Map<KeyCombo, CommandView>;

    closed spec fn view(&self) -> Map<KeyCombo, CommandView> {
        Map::new(
            |combo: KeyCombo| self.hashmap@.contains_key(combo.spec_code()),
            |combo: KeyCombo| self.hashmap@[combo.spec_code()]@,
        )
    }
}

/// The table that binds, one after the other, each key of `handlers` with its
/// modifier keys to its command. A later entry replaces an earlier one for the
/// same combination.
pub open spec fn bound(handlers: Seq<(Vec<ModKey>, u32, Command)>) -> Map<KeyCombo, CommandView>
    decreases handlers.len(),
{
    if handlers.len() == 0 {
        Map::empty()
    } else {
        let (mods, keysym, command) = handlers.last();
        bound(handlers.drop_last()).insert(
            KeyCombo { mod_mask: mask_of(mods@), keysym },
            command@,
        )
    }
}

impl KeyHandlers {
    /// The bound key combinations, each once, in no particular order.
    pub fn key_combos(&self) -> (combos: Vec<KeyCombo>)
        ensures
            combos@.no_duplicates(),
            combos@.to_set() == self@.dom(),
    {
        let mut combos: Vec<KeyCombo> = Vec::new();
        let ghost codes = self.hashmap.keys().remaining().unref();
        for code in iter: self.hashmap.keys()
            invariant
                iter.seq().unref() == codes,
                codes.to_set() == self.hashmap@.dom(),
                codes.no_duplicates(),
                combos@.len() == iter.index(),
                forall|i: int|
                    0 <= i < combos@.len() ==> (#[trigger] combos@[i]).spec_code() == codes[i],
        {
            combos.push(KeyCombo::from_code(*code));
        }
        assert(combos@.len() == codes.len());
        assert forall|i: int, j: int|
            0 <= i < combos@.len() && 0 <= j < combos@.len() && i != j implies combos@[i]
            != combos@[j] by {
            assert(combos@[i].spec_code() == codes[i]);
            assert(combos@[j].spec_code() == codes[j]);
        }
        assert forall|combo: KeyCombo| combos@.to_set().contains(combo) <==> self@.dom().contains(
            combo,
        ) by {
            if combos@.contains(combo) {
                let at = choose|at: int| 0 <= at < combos@.len() && combos@[at] == combo;
                assert(combos@[at].spec_code() == codes[at]);
                assert(codes.to_set().contains(codes[at]));
            }
            if self@.dom().contains(combo) {
                assert(codes.to_set().contains(combo.spec_code()));
                let at = choose|at: int| 0 <= at < codes.len() && codes[at] == combo.spec_code();
                assert(combos@[at].spec_code() == codes[at]);
                combos@[at].lemma_code_injective(combo);
            }
        }
        assert(combos@.to_set() =~= self@.dom());
        combos
    }

    /// The command bound to the combination, if one is.
    pub fn get(&self, key_combo: &KeyCombo) -> (command: Option<Command>)
        ensures
            match command {
                Some(command) => self@.contains_key(*key_combo) && self@[*key_combo] == command@,
                None => !self@.contains_key(*key_combo),
            },
    {
        let code = key_combo.code();
        match self.hashmap.get(&code) {
            Some(command) => Some(command.clone()),
            None => None,
        }
    }
}

impl From<Vec<(Vec<ModKey>, u32, Command)>> for KeyHandlers {
    fn from(handlers: Vec<(Vec<ModKey>, u32, Command)>) -> (table: KeyHandlers)
        ensures
            table@ == bound(handlers@),
    {
        let mut hashmap: HashMap<u64, Command> = HashMap::new();
        let mut index: usize = 0;
        let ghost mut table = KeyHandlers { hashmap };
        assert(table@ =~= bound(handlers@.take(0)));
        while index < handlers.len()
            invariant
                index <= handlers@.len(),
                table.hashmap == hashmap,
                table@ == bound(handlers@.take(index as int)),
            decreases handlers@.len() - index,
        {
            let combo = KeyCombo::new(handlers[index].0.as_slice(), handlers[index].1);
            let command = handlers[index].2.clone();
            hashmap.insert(combo.code(), command);
            proof {
                let earlier = table@;
                table = KeyHandlers { hashmap };
                let next = handlers@.take(index + 1);
                assert(next.drop_last() =~= handlers@.take(index as int));
                assert(next.last() == handlers@[index as int]);
                assert forall|other: KeyCombo| #[trigger]
                    other.spec_code() == combo.spec_code() implies other == combo by {
                    other.lemma_code_injective(combo);
                }
                assert(table@ =~= earlier.insert(combo, command@));
            }
            index = index + 1;
        }
        assert(handlers@.take(handlers@.len() as int) =~= handlers@);
        KeyHandlers { hashmap }
    }
}

impl vstd::std_specs::convert::FromSpecImpl<Vec<(Vec<ModKey>, u32, Command)>> for KeyHandlers {
    open spec fn obeys_from_spec() -> bool {
        false
    }

    open spec fn from_spec(handlers: Vec<(Vec<ModKey>, u32, Command)>) -> Self {
        arbitrary()
    }
}

} // verus!
