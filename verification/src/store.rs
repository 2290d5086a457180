//! The store: every frame, vector, map and string of a run, each under a
//! handle, and the record of the calls made to the host.
//!
//! Frames are linked to their parents by handle, so a chain of frames is
//! shared by everything that holds the handle of its innermost frame: the
//! running block, and every closure made in it. Nothing is taken out of the
//! store while it lives, so a captured frame outlives the call that made it.

use crate::value::{equal_numbers, number_index_upto, number_to_index, numbers_equal};
use crate::text::{copy_text, same_text};
use crate::value::{RunError, Value};
use vstd::prelude::*;

verus! {

/// One scope at run time: the slots of the variables declared in a block or
/// a parameter list, and the frame of the enclosing scope.
pub struct Frame {
    pub slots: Vec<Value>,
    pub parent: Option<usize>,
}

/// What a frame holds.
#[verifier::ext_equal]
pub struct FrameModel {
    pub slots: Seq<Value>,
    pub parent: Option<usize>,
}

/// One call of a native callable: what was handed to the host, and what it
/// answered.
pub struct CallRecord {
    pub native: usize,
    pub args: Seq<Value>,
    /// The frame in which the call was made.
    pub caller: usize,
    pub reply: Result<Value, RunError>,
}

/// What a store holds: the contents behind every handle, and the calls made
/// to the host so far, oldest first.
#[verifier::ext_equal]
pub struct StoreModel {
    pub frames: Seq<FrameModel>,
    pub vectors: Seq<Seq<Value>>,
    pub maps: Seq<Seq<(Value, Value)>>,
    pub strings: Seq<Seq<char>>,
    pub trace: Seq<CallRecord>,
}

/// The host of the engine: it carries out the native callables.
pub trait Host {
    /// Calls the native callable `native` on `args`, for a call made in the
    /// frame `caller`. The host may read the store; what it returns is the
    /// result of the call in the script.
    fn call_native(
        &mut self,
        native: usize,
        args: &Vec<Value>,
        caller: usize,
        store: &Store,
    ) -> Result<Value, RunError>;
}

pub struct Store {
    frames: Vec<Frame>,
    vectors: Vec<Vec<Value>>,
    maps: Vec<Vec<(Value, Value)>>,
    strings: Vec<Vec<char>>,
    trace: Ghost<Seq<CallRecord>>,
}

impl View for Frame {
    type V = FrameModel;

    open spec fn view(&self) -> FrameModel {
        FrameModel { slots: self.slots@, parent: self.parent }
    }
}

impl View for Store {
    type V = StoreModel;

    closed spec fn view(&self) -> StoreModel {
        StoreModel {
            frames: Seq::new(self.frames@.len(), |i: int| self.frames@[i]@),
            vectors: Seq::new(self.vectors@.len(), |i: int| self.vectors@[i]@),
            maps: Seq::new(self.maps@.len(), |i: int| self.maps@[i]@),
            strings: Seq::new(self.strings@.len(), |i: int| self.strings@[i]@),
            trace: self.trace@,
        }
    }
}

/// Equality of two values as the script sees it: numbers by value, strings
/// by their text, everything else by identity.
pub open spec fn same_value(strings: Seq<Seq<char>>, a: Value, b: Value) -> bool {
    match (a, b) {
        (Value::Number(x), Value::Number(y)) => numbers_equal(x, y),
        (Value::Str(x), Value::Str(y)) => x == y || (x < strings.len() && y < strings.len()
            && strings[x as int] == strings[y as int]),
        _ => a == b,
    }
}

/// The first position at or after `from` at which `pairs` holds `key`.
pub open spec fn key_position(
    strings: Seq<Seq<char>>,
    pairs: Seq<(Value, Value)>,
    key: Value,
    from: int,
) -> Option<int>
    decreases pairs.len() - from,
{
    if from < 0 || from >= pairs.len() {
        None
    } else if same_value(strings, pairs[from].0, key) {
        Some(from)
    } else {
        key_position(strings, pairs, key, from + 1)
    }
}

impl StoreModel {
    /// The store that holds nothing.
    pub open spec fn empty() -> StoreModel {
        StoreModel {
            frames: Seq::empty(),
            vectors: Seq::empty(),
            maps: Seq::empty(),
            strings: Seq::empty(),
            trace: Seq::empty(),
        }
    }

    /// The frame that lies `depth` parent links above the frame `env`.
    pub open spec fn frame_at(self, env: usize, depth: nat) -> Option<usize>
        decreases depth,
    {
        if env >= self.frames.len() {
            None
        } else if depth == 0 {
            Some(env)
        } else {
            match self.frames[env as int].parent {
                Some(p) => self.frame_at(p, (depth - 1) as nat),
                None => None,
            }
        }
    }

    /// The value of the variable at `(depth, slot)`, seen from `env`.
    pub open spec fn read_var(self, env: usize, depth: nat, slot: nat) -> Option<Value> {
        match self.frame_at(env, depth) {
            Some(f) => if slot < self.frames[f as int].slots.len() {
                Some(self.frames[f as int].slots[slot as int])
            } else {
                None
            },
            None => None,
        }
    }

    /// The store after `v` was assigned to the variable at `(depth, slot)`,
    /// seen from `env`.
    pub open spec fn write_var(self, env: usize, depth: nat, slot: nat, v: Value) -> Option<
        StoreModel,
    > {
        match self.frame_at(env, depth) {
            Some(f) => if slot < self.frames[f as int].slots.len() {
                let frame = self.frames[f as int];
                Some(
                    StoreModel {
                        frames: self.frames.update(
                            f as int,
                            FrameModel { slots: frame.slots.update(slot as int, v), ..frame },
                        ),
                        ..self
                    },
                )
            } else {
                None
            },
            None => None,
        }
    }

    /// The store after the frame `frame` got one more slot, which holds `v`.
    pub open spec fn extend_frame(self, frame: usize, v: Value) -> Option<StoreModel> {
        if frame < self.frames.len() {
            let old_frame = self.frames[frame as int];
            Some(
                StoreModel {
                    frames: self.frames.update(
                        frame as int,
                        FrameModel { slots: old_frame.slots.push(v), ..old_frame },
                    ),
                    ..self
                },
            )
        } else {
            None
        }
    }

    /// The store with one more frame. Its handle is the number of frames
    /// there were.
    pub open spec fn push_frame(self, slots: Seq<Value>, parent: Option<usize>) -> StoreModel {
        StoreModel { frames: self.frames.push(FrameModel { slots, parent }), ..self }
    }

    /// The store with one more vector. Its handle is the number of vectors
    /// there were.
    pub open spec fn push_vector(self, items: Seq<Value>) -> StoreModel {
        StoreModel { vectors: self.vectors.push(items), ..self }
    }

    /// The store with one more map. Its handle is the number of maps there
    /// were.
    pub open spec fn push_map(self, pairs: Seq<(Value, Value)>) -> StoreModel {
        StoreModel { maps: self.maps.push(pairs), ..self }
    }

    /// The store with one more string. Its handle is the number of strings
    /// there were.
    pub open spec fn push_string(self, text: Seq<char>) -> StoreModel {
        StoreModel { strings: self.strings.push(text), ..self }
    }

    /// The store after one more call to the host.
    pub open spec fn record_call(self, rec: CallRecord) -> StoreModel {
        StoreModel { trace: self.trace.push(rec), ..self }
    }

    /// Equality of two values as the script sees it.
    pub open spec fn same_value(self, a: Value, b: Value) -> bool {
        same_value(self.strings, a, b)
    }

    /// The element of `container` at `index`.
    pub open spec fn get_element(self, container: Value, index: Value) -> Result<Value, RunError> {
        match container {
            Value::Vector(h) => if h >= self.vectors.len() {
                Err(RunError::BadHandle)
            } else {
                let items = self.vectors[h as int];
                match index {
                    Value::Number(bits) => match number_index_upto(bits, items.len()) {
                        Some(i) => if i < items.len() {
                            Ok(items[i as int])
                        } else {
                            Err(RunError::IndexOutOfRange)
                        },
                        None => Err(RunError::IndexOutOfRange),
                    },
                    _ => Err(RunError::IndexOutOfRange),
                }
            },
            Value::Mapping(h) => if h >= self.maps.len() {
                Err(RunError::BadHandle)
            } else {
                let pairs = self.maps[h as int];
                match key_position(self.strings, pairs, index, 0) {
                    Some(i) => Ok(pairs[i].1),
                    None => Err(RunError::KeyNotFound),
                }
            },
            _ => Err(RunError::NotIndexable),
        }
    }

    /// The store after `v` was assigned to the element of `container` at
    /// `index`. A vector takes an index up to its length, and grows by one
    /// at its length; a map gets a new pair at its end where it does not
    /// hold the key.
    pub open spec fn set_element(self, container: Value, index: Value, v: Value) -> Result<
        StoreModel,
        RunError,
    > {
        match container {
            Value::Vector(h) => if h >= self.vectors.len() {
                Err(RunError::BadHandle)
            } else {
                let items = self.vectors[h as int];
                match index {
                    Value::Number(bits) => match number_index_upto(bits, items.len()) {
                        Some(i) => {
                            let changed = if i < items.len() {
                                items.update(i as int, v)
                            } else {
                                items.push(v)
                            };
                            Ok(StoreModel { vectors: self.vectors.update(h as int, changed), ..self })
                        },
                        None => Err(RunError::IndexOutOfRange),
                    },
                    _ => Err(RunError::IndexOutOfRange),
                }
            },
            Value::Mapping(h) => if h >= self.maps.len() {
                Err(RunError::BadHandle)
            } else {
                let pairs = self.maps[h as int];
                let changed = match key_position(self.strings, pairs, index, 0) {
                    Some(i) => pairs.update(i, (pairs[i].0, v)),
                    None => pairs.push((index, v)),
                };
                Ok(StoreModel { maps: self.maps.update(h as int, changed), ..self })
            },
            _ => Err(RunError::NotIndexable),
        }
    }
}

impl Store {
    /// The frames of a store are as many as the machine can count.
    pub proof fn lemma_frames_are_counted(&self)
        ensures
            self@.frames.len() <= usize::MAX,
    {
        assert(self.frames@.len() == self.frames.len());
    }

    /// A store that holds nothing.
    pub fn new() -> (s: Store)
        ensures
            s@ == StoreModel::empty(),
    {
        let s = Store {
            frames: Vec::new(),
            vectors: Vec::new(),
            maps: Vec::new(),
            strings: Vec::new(),
            trace: Ghost(Seq::empty()),
        };
        assert(s@ =~= StoreModel::empty());
        s
    }

    /// Walks `depth` parent links up from `env`.
    pub fn find_frame(&self, env: usize, depth: usize) -> (r: Option<usize>)
        ensures
            r == self@.frame_at(env, depth as nat),
            r matches Some(f) ==> f < self@.frames.len(),
    {
        let mut cur = env;
        let mut d = depth;
        loop
            invariant
                self@.frame_at(cur, d as nat) == self@.frame_at(env, depth as nat),
            decreases d,
        {
            if cur >= self.frames.len() {
                return None;
            }
            if d == 0 {
                return Some(cur);
            }
            match self.frames[cur].parent {
                Some(p) => {
                    cur = p;
                    d -= 1;
                },
                None => {
                    return None;
                },
            }
        }
    }

    /// Reads the variable at `(depth, slot)`, seen from `env`.
    pub fn lookup(&self, env: usize, depth: usize, slot: usize) -> (r: Option<Value>)
        ensures
            r == self@.read_var(env, depth as nat, slot as nat),
    {
        match self.find_frame(env, depth) {
            Some(f) => {
                if slot < self.frames[f].slots.len() {
                    Some(self.frames[f].slots[slot])
                } else {
                    None
                }
            },
            None => None,
        }
    }

    /// Assigns `v` to the variable at `(depth, slot)`, seen from `env`, and
    /// says whether there is such a variable.
    pub fn assign(&mut self, env: usize, depth: usize, slot: usize, v: Value) -> (done: bool)
        ensures
            match old(self)@.write_var(env, depth as nat, slot as nat, v) {
                Some(s) => done && final(self)@ == s,
                None => !done && final(self)@ == old(self)@,
            },
    {
        match self.find_frame(env, depth) {
            Some(f) => {
                if slot < self.frames[f].slots.len() {
                    self.frames[f].slots[slot] = v;
                    assert(self@ =~= old(self)@.write_var(env, depth as nat, slot as nat, v)->0);
                    true
                } else {
                    false
                }
            },
            None => false,
        }
    }

    /// Gives the frame `frame` one more slot, which holds `v`, and says
    /// whether there is such a frame.
    pub fn push_slot(&mut self, frame: usize, v: Value) -> (done: bool)
        ensures
            match old(self)@.extend_frame(frame, v) {
                Some(s) => done && final(self)@ == s,
                None => !done && final(self)@ == old(self)@,
            },
    {
        if frame < self.frames.len() {
            self.frames[frame].slots.push(v);
            assert(self@ =~= old(self)@.extend_frame(frame, v)->0);
            true
        } else {
            false
        }
    }

    /// The number of slots of the frame `frame`.
    pub fn slot_count(&self, frame: usize) -> (n: Option<usize>)
        ensures
            match n {
                Some(k) => frame < self@.frames.len() && k == self@.frames[frame as int].slots.len(),
                None => frame >= self@.frames.len(),
            },
    {
        if frame < self.frames.len() {
            Some(self.frames[frame].slots.len())
        } else {
            None
        }
    }

    /// The text of the string `handle`, where there is such a string.
    pub fn string_text(&self, handle: usize) -> (text: Option<Vec<char>>)
        ensures
            match text {
                Some(t) => handle < self@.strings.len() && t@ == self@.strings[handle as int],
                None => handle >= self@.strings.len(),
            },
    {
        if handle < self.strings.len() {
            Some(copy_text(&self.strings[handle]))
        } else {
            None
        }
    }

    /// The number of items of the vector `handle`, where there is such a
    /// vector.
    pub fn vector_len(&self, handle: usize) -> (n: Option<usize>)
        ensures
            match n {
                Some(k) => handle < self@.vectors.len() && k == self@.vectors[handle as int].len(),
                None => handle >= self@.vectors.len(),
            },
    {
        if handle < self.vectors.len() {
            Some(self.vectors[handle].len())
        } else {
            None
        }
    }

    /// Makes a frame of the given slots under `parent`, and returns its
    /// handle.
    pub fn new_frame(&mut self, slots: Vec<Value>, parent: Option<usize>) -> (h: usize)
        ensures
            h == old(self)@.frames.len(),
            final(self)@ == old(self)@.push_frame(slots@, parent),
    {
        let h = self.frames.len();
        self.frames.push(Frame { slots, parent });
        assert(self@ =~= old(self)@.push_frame(slots@, parent));
        h
    }

    /// Puts a vector into the store and returns the value that refers to it.
    pub fn new_vector(&mut self, items: Vec<Value>) -> (v: Value)
        ensures
            v == Value::Vector(old(self)@.vectors.len() as usize),
            final(self)@ == old(self)@.push_vector(items@),
    {
        let h = self.vectors.len();
        self.vectors.push(items);
        assert(self@ =~= old(self)@.push_vector(items@));
        Value::Vector(h)
    }

    /// Puts a map into the store and returns the value that refers to it.
    pub fn new_map(&mut self, pairs: Vec<(Value, Value)>) -> (v: Value)
        ensures
            v == Value::Mapping(old(self)@.maps.len() as usize),
            final(self)@ == old(self)@.push_map(pairs@),
    {
        let h = self.maps.len();
        self.maps.push(pairs);
        assert(self@ =~= old(self)@.push_map(pairs@));
        Value::Mapping(h)
    }

    /// Puts a string into the store and returns the value that refers to it.
    pub fn new_string(&mut self, text: Vec<char>) -> (v: Value)
        ensures
            v == Value::Str(old(self)@.strings.len() as usize),
            final(self)@ == old(self)@.push_string(text@),
    {
        let h = self.strings.len();
        self.strings.push(text);
        assert(self@ =~= old(self)@.push_string(text@));
        Value::Str(h)
    }

    /// Whether the script takes `a` and `b` for equal.
    pub fn values_equal(&self, a: Value, b: Value) -> (r: bool)
        ensures
            r == self@.same_value(a, b),
    {
        match (a, b) {
            (Value::Number(x), Value::Number(y)) => equal_numbers(x, y),
            (Value::Str(x), Value::Str(y)) => {
                x == y || (x < self.strings.len() && y < self.strings.len() && same_text(
                    &self.strings[x],
                    &self.strings[y],
                ))
            },
            _ => a == b,
        }
    }

    /// The first position at which the map `h` holds `key`.
    fn find_key(&self, h: usize, key: Value) -> (r: Option<usize>)
        requires
            h < self@.maps.len(),
        ensures
            match r {
                Some(i) => i < self@.maps[h as int].len() && key_position(
                    self@.strings,
                    self@.maps[h as int],
                    key,
                    0,
                ) == Some(i as int),
                None => key_position(self@.strings, self@.maps[h as int], key, 0) is None,
            },
    {
        let mut i: usize = 0;
        while i < self.maps[h].len()
            invariant
                h < self@.maps.len(),
                i <= self@.maps[h as int].len(),
                key_position(self@.strings, self@.maps[h as int], key, 0) == key_position(
                    self@.strings,
                    self@.maps[h as int],
                    key,
                    i as int,
                ),
            decreases self@.maps[h as int].len() - i,
        {
            if self.values_equal(self.maps[h][i].0, key) {
                return Some(i);
            }
            i += 1;
        }
        None
    }

    /// Reads the element of `container` at `index`.
    pub fn get_element(&self, container: Value, index: Value) -> (r: Result<Value, RunError>)
        ensures
            r == self@.get_element(container, index),
    {
        match container {
            Value::Vector(h) => {
                if h >= self.vectors.len() {
                    return Err(RunError::BadHandle);
                }
                match index {
                    Value::Number(bits) => match number_to_index(bits, self.vectors[h].len()) {
                        Some(i) => {
                            if i < self.vectors[h].len() {
                                Ok(self.vectors[h][i])
                            } else {
                                Err(RunError::IndexOutOfRange)
                            }
                        },
                        None => Err(RunError::IndexOutOfRange),
                    },
                    _ => Err(RunError::IndexOutOfRange),
                }
            },
            Value::Mapping(h) => {
                if h >= self.maps.len() {
                    return Err(RunError::BadHandle);
                }
                match self.find_key(h, index) {
                    Some(i) => Ok(self.maps[h][i].1),
                    None => Err(RunError::KeyNotFound),
                }
            },
            _ => Err(RunError::NotIndexable),
        }
    }

    /// Assigns `v` to the element of `container` at `index`.
    pub fn set_element(&mut self, container: Value, index: Value, v: Value) -> (r: Result<
        (),
        RunError,
    >)
        ensures
            match old(self)@.set_element(container, index, v) {
                Ok(s) => r is Ok && final(self)@ == s,
                Err(e) => r == Err::<(), RunError>(e) && final(self)@ == old(self)@,
            },
    {
        match container {
            Value::Vector(h) => {
                if h >= self.vectors.len() {
                    return Err(RunError::BadHandle);
                }
                match index {
                    Value::Number(bits) => match number_to_index(bits, self.vectors[h].len()) {
                        Some(i) => {
                            if i < self.vectors[h].len() {
                                self.vectors[h][i] = v;
                            } else {
                                self.vectors[h].push(v);
                            }
                            assert(self@ =~= old(self)@.set_element(container, index, v)->Ok_0);
                            Ok(())
                        },
                        None => Err(RunError::IndexOutOfRange),
                    },
                    _ => Err(RunError::IndexOutOfRange),
                }
            },
            Value::Mapping(h) => {
                if h >= self.maps.len() {
                    return Err(RunError::BadHandle);
                }
                match self.find_key(h, index) {
                    Some(i) => {
                        let k = self.maps[h][i].0;
                        self.maps[h][i] = (k, v);
                    },
                    None => {
                        self.maps[h].push((index, v));
                    },
                }
                assert(self@ =~= old(self)@.set_element(container, index, v)->Ok_0);
                Ok(())
            },
            _ => Err(RunError::NotIndexable),
        }
    }

    /// Hands the call of the native callable `native` on `args`, made in
    /// the frame `caller`, to the host and records it with the host's
    /// answer.
    pub fn call_host<H: Host>(
        &mut self,
        host: &mut H,
        native: usize,
        args: &Vec<Value>,
        caller: usize,
    ) -> (reply: Result<Value, RunError>)
        ensures
            final(self)@ == old(self)@.record_call(
                CallRecord { native, args: args@, caller, reply },
            ),
    {
        let reply = host.call_native(native, args, caller, &*self);
        proof {
            self.trace@ = self.trace@.push(CallRecord { native, args: args@, caller, reply });
        }
        assert(self@ =~= old(self)@.record_call(
            CallRecord { native, args: args@, caller, reply },
        ));
        reply
    }
}

/// The position that `key_position` finds holds the key, and lies in the
/// range searched.
pub proof fn lemma_key_position_holds_key(
    strings: Seq<Seq<char>>,
    pairs: Seq<(Value, Value)>,
    key: Value,
    from: int,
)
    ensures
        key_position(strings, pairs, key, from) matches Some(i) ==> from <= i < pairs.len()
            && same_value(strings, pairs[i].0, key),
    decreases pairs.len() - from,
{
    if 0 <= from < pairs.len() && !same_value(strings, pairs[from].0, key) {
        lemma_key_position_holds_key(strings, pairs, key, from + 1);
    }
}

/// Giving the pair at `at` a new value leaves every key where it was.
pub proof fn lemma_new_value_keeps_keys(
    strings: Seq<Seq<char>>,
    pairs: Seq<(Value, Value)>,
    key: Value,
    at: int,
    v: Value,
    from: int,
)
    requires
        0 <= at < pairs.len(),
    ensures
        key_position(strings, pairs.update(at, (pairs[at].0, v)), key, from) == key_position(
            strings,
            pairs,
            key,
            from,
        ),
    decreases pairs.len() - from,
{
    let changed = pairs.update(at, (pairs[at].0, v));
    if 0 <= from < pairs.len() {
        assert(changed[from].0 == pairs[from].0);
        if !same_value(strings, pairs[from].0, key) {
            lemma_new_value_keeps_keys(strings, pairs, key, at, v, from + 1);
        }
    }
}

/// A key that equals itself and is appended to pairs that do not hold it is
/// found at the end.
pub proof fn lemma_appended_key_is_found(
    strings: Seq<Seq<char>>,
    pairs: Seq<(Value, Value)>,
    key: Value,
    v: Value,
    from: int,
)
    requires
        0 <= from <= pairs.len(),
        key_position(strings, pairs, key, from) is None,
        same_value(strings, key, key),
    ensures
        key_position(strings, pairs.push((key, v)), key, from) == Some(pairs.len() as int),
    decreases pairs.len() - from,
{
    let longer = pairs.push((key, v));
    if from < pairs.len() {
        assert(longer[from] == pairs[from]);
        lemma_appended_key_is_found(strings, pairs, key, v, from + 1);
    } else {
        assert(longer[from] == (key, v));
    }
}

/// What was assigned to an element is what is read there afterwards,
/// through every value that names the same container. The key must equal
/// itself, which every value does but a NaN.
pub proof fn lemma_element_assigned_is_read(st: StoreModel, c: Value, index: Value, v: Value)
    requires
        st.set_element(c, index, v) is Ok,
        st.same_value(index, index),
    ensures
        st.set_element(c, index, v).unwrap().get_element(c, index) == Ok::<Value, RunError>(v),
{
    let after = st.set_element(c, index, v).unwrap();
    match c {
        Value::Vector(h) => {},
        Value::Mapping(h) => {
            let pairs = st.maps[h as int];
            lemma_key_position_holds_key(st.strings, pairs, index, 0);
            match key_position(st.strings, pairs, index, 0) {
                Some(i) => {
                    lemma_new_value_keeps_keys(st.strings, pairs, index, i, v, 0);
                },
                None => {
                    lemma_appended_key_is_found(st.strings, pairs, index, v, 0);
                },
            }
        },
        _ => {},
    }
}

/// Container aliasing: where the container that one variable holds is
/// assigned to a second variable, an element assigned through the second
/// is read through the first.
pub proof fn lemma_container_is_shared(
    st: StoreModel,
    env: usize,
    first: (nat, nat),
    second: (nat, nat),
    index: Value,
    v: Value,
)
    requires
        st.read_var(env, first.0, first.1) is Some,
        st.write_var(env, second.0, second.1, st.read_var(env, first.0, first.1).unwrap()) is Some,
        st.same_value(index, index),
        ({
            let c = st.read_var(env, first.0, first.1).unwrap();
            let st1 = st.write_var(env, second.0, second.1, c).unwrap();
            st1.set_element(st1.read_var(env, second.0, second.1).unwrap(), index, v) is Ok
        }),
    ensures
        ({
            let c = st.read_var(env, first.0, first.1).unwrap();
            let st1 = st.write_var(env, second.0, second.1, c).unwrap();
            let st2 = st1.set_element(st1.read_var(env, second.0, second.1).unwrap(), index, v).unwrap();
            &&& st2.read_var(env, first.0, first.1) is Some
            &&& st2.get_element(st2.read_var(env, first.0, first.1).unwrap(), index) == Ok::<
                Value,
                RunError,
            >(v)
        }),
{
    let c = st.read_var(env, first.0, first.1).unwrap();
    let st1 = st.write_var(env, second.0, second.1, c).unwrap();
    lemma_write_keeps_chain(st, env, second.0, second.1, c, env, first.0);
    lemma_write_keeps_chain(st, env, second.0, second.1, c, env, second.0);
    lemma_chain_ends_in_store(st, env, first.0);
    lemma_chain_ends_in_store(st, env, second.0);
    let f1 = st.frame_at(env, first.0).unwrap();
    let f2 = st.frame_at(env, second.0).unwrap();
    assert(st1.frames[f2 as int].slots == st.frames[f2 as int].slots.update(second.1 as int, c));
    assert(f1 != f2 ==> st1.frames[f1 as int] == st.frames[f1 as int]);
    assert(st1.read_var(env, first.0, first.1) == Some(c));
    assert(st1.read_var(env, second.0, second.1) == Some(c));
    let st2 = st1.set_element(c, index, v).unwrap();
    assert(st2.frames == st1.frames);
    lemma_same_frames_same_chain(st1, st2, env, first.0);
    lemma_element_assigned_is_read(st1, c, index, v);
}

/// Two stores with the same frames have the same chains.
pub proof fn lemma_same_frames_same_chain(a: StoreModel, b: StoreModel, env: usize, depth: nat)
    requires
        a.frames == b.frames,
    ensures
        a.frame_at(env, depth) == b.frame_at(env, depth),
    decreases depth,
{
    if env < a.frames.len() && depth > 0 {
        match a.frames[env as int].parent {
            Some(p) => lemma_same_frames_same_chain(a, b, p, (depth - 1) as nat),
            None => {},
        }
    }
}

/// An assignment to a variable leaves every chain of frames as it was.
pub proof fn lemma_write_keeps_chain(
    st: StoreModel,
    env: usize,
    depth: nat,
    slot: nat,
    v: Value,
    from: usize,
    up: nat,
)
    requires
        st.write_var(env, depth, slot, v) is Some,
    ensures
        st.write_var(env, depth, slot, v).unwrap().frame_at(from, up) == st.frame_at(from, up),
    decreases up,
{
    let after = st.write_var(env, depth, slot, v).unwrap();
    let f = st.frame_at(env, depth).unwrap();
    lemma_chain_ends_in_store(st, env, depth);
    assert(after.frames.len() == st.frames.len());
    if from < st.frames.len() {
        assert(after.frames[from as int].parent == st.frames[from as int].parent);
        if up > 0 {
            match st.frames[from as int].parent {
                Some(p) => lemma_write_keeps_chain(st, env, depth, slot, v, p, (up - 1) as nat),
                None => {},
            }
        }
    }
}

/// A frame that a chain reaches is a frame of the store.
pub proof fn lemma_chain_ends_in_store(st: StoreModel, env: usize, depth: nat)
    ensures
        st.frame_at(env, depth) matches Some(f) ==> f < st.frames.len(),
    decreases depth,
{
    if env < st.frames.len() && depth > 0 {
        match st.frames[env as int].parent {
            Some(p) => lemma_chain_ends_in_store(st, p, (depth - 1) as nat),
            None => {},
        }
    }
}

/// A new frame leaves every chain that leads to a frame as it was.
pub proof fn lemma_push_keeps_chain(
    st: StoreModel,
    slots: Seq<Value>,
    parent: Option<usize>,
    from: usize,
    up: nat,
)
    requires
        st.frame_at(from, up) is Some,
    ensures
        st.push_frame(slots, parent).frame_at(from, up) == st.frame_at(from, up),
    decreases up,
{
    let after = st.push_frame(slots, parent);
    assert(after.frames[from as int] == st.frames[from as int]);
    if up > 0 {
        match st.frames[from as int].parent {
            Some(p) => lemma_push_keeps_chain(st, slots, parent, p, (up - 1) as nat),
            None => {},
        }
    }
}

/// Closure capture: a variable that is assigned after a closure was made,
/// through any chain that reaches the variable's frame, is what a call of
/// the closure reads. The call runs in a new frame under the captured one,
/// so it finds the variable one level deeper than the captured frame does.
pub proof fn lemma_closure_sees_later_assignment(
    st: StoreModel,
    captured: usize,
    depth: nat,
    writer: usize,
    writer_depth: nat,
    slot: nat,
    v: Value,
    slots: Seq<Value>,
)
    requires
        st.frame_at(captured, depth) is Some,
        st.frame_at(writer, writer_depth) == st.frame_at(captured, depth),
        st.write_var(writer, writer_depth, slot, v) is Some,
        st.frames.len() < usize::MAX,
    ensures
        ({
            let st1 = st.write_var(writer, writer_depth, slot, v).unwrap();
            let frame = st1.frames.len() as usize;
            st1.push_frame(slots, Some(captured)).read_var(frame, depth + 1, slot) == Some(v)
        }),
{
    let st1 = st.write_var(writer, writer_depth, slot, v).unwrap();
    let frame = st1.frames.len() as usize;
    let st2 = st1.push_frame(slots, Some(captured));
    lemma_write_keeps_chain(st, writer, writer_depth, slot, v, captured, depth);
    lemma_chain_ends_in_store(st, captured, depth);
    lemma_chain_ends_in_store(st, captured, 0);
    assert(captured < st1.frames.len());
    lemma_push_keeps_chain(st1, slots, Some(captured), captured, depth);
    assert(st2.frames[frame as int].parent == Some(captured));
    assert(st2.frame_at(frame, depth + 1) == st2.frame_at(captured, depth));
}

} // verus!
