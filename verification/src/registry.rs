//! The execution context: persistent state kept by name, and a register file
//! kept by index, both holding typed values.

use vstd::prelude::*;
use vstd::hash_map::StringHashMap;
use crate::errors::RegistryError;

verus! {

/// A value held in persistent state.
#[derive(Debug, Clone, PartialEq)]
pub enum StateValue<'a> {
    Uint8(u8),
    Uint128(u128),
    String(&'a str),
    Bool(bool),
    ByteArray(Vec<u8>),
}

/// A value held in a register.
#[derive(Debug, Clone, PartialEq)]
pub enum Value<'a> {
    Uint8(u8),
    Uint128(u128),
    String(&'a str),
    Bool(bool),
    ByteArray(Vec<u8>),
}

impl<'a> Value<'a> {
    /// The byte held, if this is a `Uint8`.
    pub fn as_uint8(&self) -> (r: Option<u8>)
        ensures
            r == match *self {
                Value::Uint8(val) => Some(val),
                _ => None,
            },
    {
        if let Value::Uint8(val) = self {
            Some(*val)
        } else {
            None
        }
    }

    /// The number held, if this is a `Uint128`.
    pub fn as_uint128(&self) -> (r: Option<u128>)
        ensures
            r == match *self {
                Value::Uint128(val) => Some(val),
                _ => None,
            },
    {
        if let Value::Uint128(val) = self {
            Some(*val)
        } else {
            None
        }
    }

    /// The text held, if this is a `String`.
    pub fn as_string(&self) -> (r: Option<&str>)
        ensures
            r == match *self {
                Value::String(val) => Some(val),
                _ => None,
            },
    {
        if let Value::String(val) = self {
            Some(*val)
        } else {
            None
        }
    }

    /// The truth value held, if this is a `Bool`.
    pub fn as_bool(&self) -> (r: Option<bool>)
        ensures
            r == match *self {
                Value::Bool(val) => Some(val),
                _ => None,
            },
    {
        if let Value::Bool(val) = self {
            Some(*val)
        } else {
            None
        }
    }

    /// The bytes held, if this is a `ByteArray`.
    pub fn as_byte_array(&self) -> (r: Option<&Vec<u8>>)
        ensures
            r == match self {
                Value::ByteArray(val) => Some(val),
                _ => None,
            },
    {
        if let Value::ByteArray(ref val) = self {
            Some(val)
        } else {
            None
        }
    }
}

/// The state that a list of named values builds up when they are stored one
/// after another: of two values under one name, the later one stays.
pub open spec fn state_of<'a>(entries: Seq<(String, StateValue<'a>)>) -> Map<
    Seq<char>,
    StateValue<'a>,
>
    decreases entries.len(),
{
    if entries.len() == 0 {
        Map::empty()
    } else {
        state_of(entries.drop_last()).insert(entries.last().0@, entries.last().1)
    }
}

/// What instructions run against: the state, which outlives a call and is
/// never shrunk, and the registers, which are allocated and freed one by one.
pub struct ExecutionContext<'a> {
    state: StringHashMap<StateValue<'a>>,
    memory: Vec<Value<'a>>,
}

impl<'a> ExecutionContext<'a> {
    /// The persistent state: the value stored under each name.
    pub closed spec fn state(&self) -> Map<Seq<char>, StateValue<'a>> {
        self.state@
    }

    /// The register file: the value at each index.
    pub closed spec fn memory(&self) -> Seq<Value<'a>> {
        self.memory@
    }

    /// A context with no state and no registers.
    pub fn new_empty() -> (r: Self)
        ensures
            r.state() == Map::<Seq<char>, StateValue<'a>>::empty(),
            r.memory() == Seq::<Value<'a>>::empty(),
    {
        ExecutionContext { state: StringHashMap::new(), memory: Vec::new() }
    }

    /// A context that starts from the given named values, and no registers.
    pub fn new_with_state(state: Vec<(String, StateValue<'a>)>) -> (r: Self)
        ensures
            r.state() == state_of(state@),
            r.memory() == Seq::<Value<'a>>::empty(),
    {
        let mut stored: StringHashMap<StateValue<'a>> = StringHashMap::new();
        let ghost entries = state@;
        for entry in iter: state
            invariant
                iter.seq() == entries,
                stored@ == state_of(entries.take(iter.index() as int)),
        {
            proof {
                let k = iter.index() as int;
                assert(entries.take(k + 1).drop_last() =~= entries.take(k));
            }
            let (name, value) = entry;
            stored.insert(name, value);
        }
        proof {
            assert(entries.take(entries.len() as int) =~= entries);
        }
        ExecutionContext { state: stored, memory: Vec::new() }
    }

    /// The value stored under `key`, or `InvalidStateRegister` with the key
    /// where nothing is stored under it.
    pub fn get_state(&self, key: &str) -> (r: Result<&StateValue<'a>, RegistryError>)
        ensures
            match r {
                Ok(value) => self.state().contains_key(key@) && *value == self.state()[key@],
                Err(e) => {
                    &&& !self.state().contains_key(key@)
                    &&& e matches RegistryError::InvalidStateRegister(name)
                    &&& name@ == key@
                },
            },
    {
        match self.state.get(key) {
            Some(value) => Ok(value),
            None => Err(RegistryError::InvalidStateRegister(key.to_owned())),
        }
    }

    /// Stores `value` under `key`, in place of whatever was stored there, of
    /// whatever type. The other names and the registers stay as they are.
    pub fn set_state(&mut self, key: &str, value: StateValue<'a>) -> (r: Result<(), RegistryError>)
        ensures
            r is Ok,
            final(self).state() == old(self).state().insert(key@, value),
            final(self).memory() == old(self).memory(),
    {
        self.state.insert(key.to_owned(), value);
        Ok(())
    }

    /// Allocates a register holding `value` behind the existing ones, and
    /// returns its index.
    pub fn malloc(&mut self, value: Value<'a>) -> (index: usize)
        ensures
            index == old(self).memory().len(),
            final(self).memory() == old(self).memory().push(value),
            final(self).state() == old(self).state(),
    {
        self.memory.push(value);
        self.memory.len() - 1
    }

    /// Frees the register at `index`. Every register behind it moves down by
    /// one index. Fails with `OutOfBounds`, changing nothing, where there is
    /// no such register.
    pub fn delloc(&mut self, index: usize) -> (r: Result<(), RegistryError>)
        ensures
            final(self).state() == old(self).state(),
            index < old(self).memory().len() ==> r is Ok && final(self).memory() == old(
                self,
            ).memory().remove(index as int),
            index >= old(self).memory().len() ==> r == Err::<(), RegistryError>(
                RegistryError::OutOfBounds(index, old(self).memory().len() as usize),
            ) && final(self).memory() == old(self).memory(),
    {
        if index < self.memory.len() {
            self.memory.remove(index);
            Ok(())
        } else {
            Err(RegistryError::OutOfBounds(index, self.memory.len()))
        }
    }

    /// Frees every register. The state stays as it is.
    pub fn clear_memory(&mut self)
        ensures
            final(self).memory() == Seq::<Value<'a>>::empty(),
            final(self).state() == old(self).state(),
    {
        self.memory.clear();
    }

    /// The number of registers allocated.
    pub fn memory_len(&self) -> (r: usize)
        ensures
            r == self.memory().len(),
    {
        self.memory.len()
    }

    /// The value in the register at `index`, or `OutOfBounds` where there is
    /// no such register.
    pub fn get_memory(&self, index: usize) -> (r: Result<&Value<'a>, RegistryError>)
        ensures
            match r {
                Ok(value) => index < self.memory().len() && *value == self.memory()[index as int],
                Err(e) => index >= self.memory().len() && e == RegistryError::OutOfBounds(
                    index,
                    self.memory().len() as usize,
                ),
            },
    {
        if index < self.memory.len() {
            Ok(&self.memory[index])
        } else {
            Err(RegistryError::OutOfBounds(index, self.memory.len()))
        }
    }
}

/// Of two values stored under one name the second is the one read back, and
/// a name that nothing was stored under stays unknown.
pub proof fn lemma_last_write_wins<'a>(
    state: Map<Seq<char>, StateValue<'a>>,
    key: Seq<char>,
    first: StateValue<'a>,
    second: StateValue<'a>,
    other: Seq<char>,
)
    ensures
        state.insert(key, first).insert(key, second)[key] == second,
        state.insert(key, first).insert(key, second).contains_key(key),
        other != key ==> (state.insert(key, first).insert(key, second).contains_key(other)
            <==> state.contains_key(other)),
{
}

/// Freeing a register leaves those before it in place and moves each one
/// behind it down by one index.
pub proof fn lemma_free_shifts_down<'a>(memory: Seq<Value<'a>>, index: int, at: int)
    requires
        0 <= index < memory.len(),
        0 <= at < memory.len() - 1,
    ensures
        memory.remove(index).len() == memory.len() - 1,
        at < index ==> memory.remove(index)[at] == memory[at],
        at >= index ==> memory.remove(index)[at] == memory[at + 1],
{
}

} // verus!
