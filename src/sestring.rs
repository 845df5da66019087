//! The ambient state and parameters that text templates read.
use vstd::prelude::*;
use std::collections::HashMap;
use crate::error::{Error, ErrorValue, Result};

verus! {

broadcast use vstd::std_specs::hash::group_hash_axioms;

/// The value of anything the context does not know.
pub const UNKNOWN: u32 = 0xFFFF_FFFF;

/// The player the text is shown to.
#[derive(Debug)]
struct Player {
    id: u32,
    level: u32,
}

/// State and parameters of one evaluation of a text template.
#[derive(Debug)]
pub struct Context {
    player: Player,
    player_names: HashMap<u32, String>,
    default_name: String,
    time: Option<u32>,
    current_time: Option<u32>,
    integers: Vec<u32>,
    strings: Vec<String>,
}

/// Whether `id` is a player parameter that the context recognises.
pub open spec fn known_player_parameter(id: u32) -> bool {
    id == 0 || (4 <= id <= 8) || id == 11 || id == 12 || (13 <= id <= 44) || (57 <= id <= 65)
        || (52 <= id <= 54) || id == 66 || id == 67 || id == 68 || id == 69 || id == 70
        || id == 71 || id == 72 || (74 <= id <= 80) || id == 83 || (84 <= id <= 90) || id == 92
        || id == 94
}

impl Context {
    pub closed spec fn spec_player_id(&self) -> u32 { self.player.id }
    pub closed spec fn spec_player_level(&self) -> u32 { self.player.level }
    pub closed spec fn spec_player_names(&self) -> Map<u32, String> { self.player_names@ }
    pub closed spec fn spec_default_name(&self) -> Seq<char> { self.default_name@ }
    pub closed spec fn spec_time(&self) -> Option<u32> { self.time }
    pub closed spec fn spec_current_time(&self) -> Option<u32> { self.current_time }
    pub closed spec fn spec_integers(&self) -> Seq<u32> { self.integers@ }
    pub closed spec fn spec_strings(&self) -> Seq<String> { self.strings@ }

    /// A default context that holds the integer and string parameters given.
    pub fn with_parameters(integers: Vec<u32>, strings: Vec<String>) -> (r: Context)
        ensures
            r.spec_integers() == integers@,
            r.spec_strings() == strings@,
            r.spec_player_id() == UNKNOWN,
            r.spec_player_level() == UNKNOWN,
            r.spec_player_names().len() == 0,
            r.spec_time() is None,
            r.spec_current_time() is None,
    {
        let mut context = Context::default();
        context.integers = integers;
        context.strings = strings;
        context
    }

    /// Id of the player.
    pub fn player_id(&self) -> (r: u32)
        ensures
            r == self.spec_player_id(),
    {
        self.player.id
    }

    /// Name of player `id`, or the default name for a player not known.
    pub fn player_name(&self, id: u32) -> (r: String)
        ensures
            r@ == (if self.spec_player_names().contains_key(id) {
                self.spec_player_names()[id]@
            } else {
                self.spec_default_name()
            }),
    {
        match self.player_names.get(&id) {
            Some(name) => name.clone(),
            None => self.default_name.clone(),
        }
    }

    /// The time set on this context.
    pub fn time(&self) -> (r: Option<u32>)
        ensures
            r == self.spec_time(),
    {
        self.time
    }

    /// Sets the time.
    pub fn set_time(&mut self, time: u32)
        ensures
            final(self).spec_time() == Some(time),
            final(self).spec_current_time() == old(self).spec_current_time(),
            final(self).spec_player_id() == old(self).spec_player_id(),
            final(self).spec_player_level() == old(self).spec_player_level(),
            final(self).spec_player_names() == old(self).spec_player_names(),
            final(self).spec_default_name() == old(self).spec_default_name(),
            final(self).spec_integers() == old(self).spec_integers(),
            final(self).spec_strings() == old(self).spec_strings(),
    {
        self.time = Some(time);
    }

    /// The current time, when known.
    pub fn current_time(&self) -> (r: Option<u32>)
        ensures
            r == self.spec_current_time(),
    {
        self.current_time
    }

    /// Integer parameter `index`, counted from 1; unknown for index 0 and
    /// past the last parameter.
    pub fn integer_parameter(&self, index: u32) -> (r: u32)
        ensures
            r == (if index == 0 || index > self.spec_integers().len() {
                UNKNOWN
            } else {
                self.spec_integers()[index - 1]
            }),
    {
        if index == 0 {
            return UNKNOWN;
        }
        let raw_index = index as usize - 1;
        if raw_index < self.integers.len() {
            self.integers[raw_index]
        } else {
            UNKNOWN
        }
    }

    /// Player parameter `id`: the player's level for 69 and 72, unknown for
    /// the other recognised ids, `Invalid` for an id not recognised.
    pub fn player_parameter(&self, id: u32) -> (r: Result<u32>)
        ensures
            known_player_parameter(id) ==> r == Ok::<u32, Error>(
                if id == 69 || id == 72 { self.spec_player_level() } else { UNKNOWN }),
            !known_player_parameter(id) ==> (r matches Err(Error::Invalid(ErrorValue::PlayerParameter(i), _))
                && i == id),
    {
        let value = match id {
            0 => UNKNOWN,
            4 => UNKNOWN,
            5 => UNKNOWN,
            6 => UNKNOWN,
            7 => UNKNOWN,
            8 => UNKNOWN,
            11 => UNKNOWN,
            12 => UNKNOWN,
            13..=44 => UNKNOWN,
            57..=65 => UNKNOWN,
            52 | 53 | 54 => UNKNOWN,
            66 | 67 => UNKNOWN,
            68 => UNKNOWN,
            69 => self.player.level,
            70 => UNKNOWN,
            71 => UNKNOWN,
            72 => self.player.level,
            74 => UNKNOWN,
            75 => UNKNOWN,
            76 => UNKNOWN,
            77 => UNKNOWN,
            78 => UNKNOWN,
            79 => UNKNOWN,
            80 => UNKNOWN,
            83 => UNKNOWN,
            84 | 85 | 86 | 87 | 88 | 89 | 90 => UNKNOWN,
            92 => UNKNOWN,
            94 => UNKNOWN,
            _ => {
                return Err(Error::Invalid(ErrorValue::PlayerParameter(id), "unknown player parameter id".to_string()));
            },
        };
        Ok(value)
    }

    /// String parameter `index`, counted from 0; empty past the last parameter.
    pub fn string_parameter(&self, index: u32) -> (r: String)
        ensures
            r@ == (if index < self.spec_strings().len() {
                self.spec_strings()[index as int]@
            } else {
                Seq::<char>::empty()
            }),
    {
        let raw_index = index as usize;
        if raw_index < self.strings.len() {
            self.strings[raw_index].clone()
        } else {
            String::new()
        }
    }

    /// Object parameter `index`; objects are not supported, so it is empty.
    pub fn object_parameter(&self, _index: u32) -> (r: String)
        ensures
            r@ == Seq::<char>::empty(),
    {
        String::new()
    }
}

impl Player {
    /// A player of whom nothing is known.
    fn unknown() -> (r: Player)
        ensures
            r.id == UNKNOWN,
            r.level == UNKNOWN,
    {
        Player { id: UNKNOWN, level: UNKNOWN }
    }
}

impl Default for Context {
    fn default() -> (r: Context)
        ensures
            r.spec_player_id() == UNKNOWN,
            r.spec_player_level() == UNKNOWN,
            r.spec_player_names().len() == 0,
            r.spec_default_name() == "Obtaining Signature"@,
            r.spec_time() is None,
            r.spec_current_time() is None,
            r.spec_integers().len() == 0,
            r.spec_strings().len() == 0,
    {
        Context {
            player: Player::unknown(),
            player_names: HashMap::new(),
            default_name: "Obtaining Signature".to_string(),
            time: None,
            current_time: None,
            integers: Vec::new(),
            strings: Vec::new(),
        }
    }
}

} // verus!
