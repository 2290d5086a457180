//! The engine as a host sees it: globals, compilation and calls.
//!
//! The engine keeps one store for its whole life. The frame 0 of the store
//! is the global frame: it holds the operators, what the host has set, and
//! the functions of the sources compiled. The names of the globals are the
//! outermost scope of the resolver, each at the slot of its value.

use crate::ast::{Program, ProgramModel};
use crate::char_reader::CharReader;
use crate::debug::{fmt_program, render_program};
use crate::error::ParseError;
use crate::eval::call_value;
use crate::grammar;
use crate::grammar::ParserModel;
use crate::lexer::{read_tokens, source_of, tokens_from, Source};
use crate::parser::{texts_of, Parser};
use crate::resolution::{
    code_kept, code_of, lemma_func_stays_resolved, resolved_func, shape_of, Code,
};
use crate::resolver::{name_position, names_of, Resolver, ScopeModel};
use crate::safety::{
    fits, frames_held, good_store, good_value, good_values, lemma_call_value_safe,
    lemma_closure_is_good, lemma_extend_keeps_good, lemma_fits_held, lemma_more_funcs_keep_good,
    lemma_read_is_good, lemma_write_keeps_good, oracle_of, tame, tame_trace,
};
use crate::soundness::{
    code_at, lemma_parse_program, lemma_shape_within_itself, room, spare,
};
use crate::semantics;
use crate::semantics::{agrees, continues, trace_grows, Oracle};
use crate::store::{CallRecord, Host, Store, StoreModel};
use crate::text::{copy_text, text_of};
use crate::value::{bits_of_literal, literal_bits, RunError, Value};
use vstd::prelude::*;

verus! {

/// The number of operators.
pub const OPERATORS: usize = 15;

/// The name that the operator `i` is bound to. The operator `i` is bound
/// to the native callable `i`, at the slot `i` of the global frame.
pub open spec fn operator_name(i: int) -> Seq<char> {
    if i == 0 {
        "__or"@
    } else if i == 1 {
        "__and"@
    } else if i == 2 {
        "__eq"@
    } else if i == 3 {
        "__ne"@
    } else if i == 4 {
        "__lt"@
    } else if i == 5 {
        "__le"@
    } else if i == 6 {
        "__gt"@
    } else if i == 7 {
        "__ge"@
    } else if i == 8 {
        "__add"@
    } else if i == 9 {
        "__sub"@
    } else if i == 10 {
        "__mul"@
    } else if i == 11 {
        "__div"@
    } else if i == 12 {
        "__mod"@
    } else if i == 13 {
        "__neg"@
    } else {
        "__not"@
    }
}

/// The names of the operators, in the order of their slots.
pub open spec fn operator_names() -> ScopeModel {
    Seq::new(OPERATORS as nat, |i: int| operator_name(i))
}

/// The values of the operators, in the order of their slots.
pub open spec fn operator_slots() -> Seq<Value> {
    Seq::new(OPERATORS as nat, |i: int| Value::Native(i as usize))
}

/// What an engine holds.
pub struct BleepModel {
    /// The scopes of the resolver; the first holds the names of the globals.
    pub scopes: Seq<ScopeModel>,
    pub program: ProgramModel,
    /// The texts of the number literals, each at the index of its constant.
    pub number_texts: Seq<Seq<char>>,
    pub store: StoreModel,
}

/// The store with the frame 0 filled up with `Null` to `size` slots.
pub open spec fn grown(st: StoreModel, size: nat) -> StoreModel
    decreases size - st.frames[0].slots.len(),
{
    if 0 < st.frames.len() && st.frames[0].slots.len() < size {
        grown(st.extend_frame(0, Value::Null).unwrap(), size)
    } else {
        st
    }
}

/// The store after each function of `bound`, from the index `i` on, was
/// assigned to its slot of the global frame, as a closure over that frame.
pub open spec fn installed(st: StoreModel, bound: Seq<(usize, usize)>, i: int) -> StoreModel
    decreases bound.len() - i,
{
    if 0 <= i < bound.len() {
        let closure = Value::Closure(bound[i].1, 0);
        match st.write_var(0, 0, bound[i].0 as nat, closure) {
            Some(st1) => installed(st1, bound, i + 1),
            None => installed(st, bound, i + 1),
        }
    } else {
        st
    }
}

/// The constants with one more for each literal of `texts` that has none
/// yet: the number that the literal denotes, where the engine can find it,
/// and zero otherwise.
pub open spec fn filled(numbers: Seq<u64>, texts: Seq<Seq<char>>) -> Seq<u64>
    decreases texts.len() - numbers.len(),
{
    if numbers.len() < texts.len() {
        filled(numbers.push(literal_bits(texts[numbers.len() as int])), texts)
    } else {
        numbers
    }
}

/// The engine after the source was compiled: its functions have joined the
/// program and are bound to their names in the global frame, and each of
/// its number literals has a constant. Or the first error of the source.
pub open spec fn compiled(src: Source, b: BleepModel) -> Result<BleepModel, ParseError> {
    match tokens_from(src, 0, Seq::empty()) {
        Err(err) => Err(err),
        Ok(toks) => match grammar::parse_program(toks, b.start(), Seq::empty()) {
            Err(err) => Err(err),
            Ok((bound, st)) => Ok(
                BleepModel {
                    scopes: st.scopes,
                    program: ProgramModel {
                        funcs: st.funcs,
                        numbers: filled(b.program.numbers, st.numbers),
                        strings: st.strings,
                    },
                    number_texts: st.numbers,
                    store: installed(grown(b.store, st.scopes[0].len()), bound, 0),
                },
            ),
        },
    }
}

/// The engine.
pub struct Bleep {
    resolver: Resolver,
    program: Program,
    number_texts: Vec<Vec<char>>,
    store: Store,
}

impl View for Bleep {
    type V = BleepModel;

    closed spec fn view(&self) -> BleepModel {
        BleepModel {
            scopes: self.resolver@,
            program: self.program@,
            number_texts: texts_of(self.number_texts),
            store: self.store@,
        }
    }
}

fn names_of_operators() -> (names: Vec<Vec<char>>)
    ensures
        names_of(names) == operator_names(),
{
    let mut names: Vec<Vec<char>> = Vec::new();
    names.push(text_of("__or"));
    names.push(text_of("__and"));
    names.push(text_of("__eq"));
    names.push(text_of("__ne"));
    names.push(text_of("__lt"));
    names.push(text_of("__le"));
    names.push(text_of("__gt"));
    names.push(text_of("__ge"));
    names.push(text_of("__add"));
    names.push(text_of("__sub"));
    names.push(text_of("__mul"));
    names.push(text_of("__div"));
    names.push(text_of("__mod"));
    names.push(text_of("__neg"));
    names.push(text_of("__not"));
    assert(names_of(names) =~= operator_names());
    names
}

fn slots_of_operators() -> (slots: Vec<Value>)
    ensures
        slots@ == operator_slots(),
{
    let mut slots: Vec<Value> = Vec::new();
    let mut i: usize = 0;
    while i < OPERATORS
        invariant
            i <= OPERATORS,
            slots@ == Seq::new(i as nat, |k: int| Value::Native(k as usize)),
        decreases OPERATORS - i,
    {
        slots.push(Value::Native(i));
        i += 1;
        assert(slots@ =~= Seq::new(i as nat, |k: int| Value::Native(k as usize)));
    }
    slots
}

impl BleepModel {
    /// Whether the engine has kept the resolver's promise so far: the
    /// global scope is the only scope open, every global has a slot in
    /// the global frame, and every closure in the store is one of a
    /// resolved function over a chain of frames that fits it.
    pub open spec fn sound(self) -> bool {
        &&& self.scopes.len() == 1
        &&& self.store.frames.len() >= 1
        &&& self.store.frames[0].slots.len() >= self.scopes[0].len()
        &&& good_store(code_of(self.program), self.store)
    }

    /// The state in which the parsing of a source starts.
    pub open spec fn start(self) -> ParserModel {
        ParserModel {
            pos: 0,
            scopes: self.scopes,
            funcs: self.program.funcs,
            numbers: self.number_texts,
            strings: self.program.strings,
        }
    }

    /// There is a global frame, every global has a slot in it, and every
    /// number literal has a constant.
    pub open spec fn wf(self) -> bool {
        &&& self.scopes.len() >= 1
        &&& self.store.frames.len() >= 1
        &&& self.store.frames[0].slots.len() >= self.scopes[0].len()
        &&& self.program.numbers.len() >= self.number_texts.len()
    }

    /// The value of the global `name`.
    pub open spec fn global(self, name: Seq<char>) -> Option<Value> {
        match name_position(self.scopes[0], name, 0) {
            Some(slot) => self.store.read_var(0, 0, slot as nat),
            None => None,
        }
    }
}

impl Bleep {
    /// An engine that knows the operators and nothing else: the operator
    /// `i` is bound to the native callable `i`.
    pub fn new() -> (b: Bleep)
        ensures
            b@.wf(),
            b@.sound(),
            b@.scopes == seq![operator_names()],
            b@.store == StoreModel::empty().push_frame(operator_slots(), None),
            b@.program.funcs.len() == 0,
            b@.program.numbers.len() == 0,
            b@.program.strings.len() == 0,
    {
        let resolver = Resolver::with_names(names_of_operators());
        let mut store = Store::new();
        let _ = store.new_frame(slots_of_operators(), None);
        let b = Bleep {
            resolver,
            program: Program { funcs: Vec::new(), numbers: Vec::new(), strings: Vec::new() },
            number_texts: Vec::new(),
            store,
        };
        assert(b@.program.strings =~= Seq::empty());
        assert(good_store(code_of(b@.program), b@.store)) by {
            assert(good_values(code_of(b@.program), b@.store, operator_slots()));
            assert(b@.store.frames[0].slots == operator_slots());
        }
        b
    }

    /// Binds the global `name` to `value`: a global of that name gets the
    /// value, and otherwise a new global is made, at the next slot of the
    /// global frame.
    pub fn set_var(&mut self, name: Vec<char>, value: Value)
        requires
            old(self)@.wf(),
        ensures
            final(self)@.wf(),
            old(self)@.sound() && good_value(code_of(old(self)@.program), old(self)@.store, value)
                ==> final(self)@.sound(),
            final(self)@.program == old(self)@.program,
            final(self)@.number_texts == old(self)@.number_texts,
            final(self)@.scopes.len() == old(self)@.scopes.len(),
            match name_position(old(self)@.scopes[0], name@, 0) {
                Some(slot) => final(self)@.scopes == old(self)@.scopes && Some(final(self)@.store)
                    == old(self)@.store.write_var(0, 0, slot as nat, value),
                None => final(self)@.scopes == old(self)@.scopes.update(
                    0,
                    old(self)@.scopes[0].push(name@),
                ) && Some(final(self)@.store) == (if old(self)@.scopes[0].len() < old(
                    self,
                )@.store.frames[0].slots.len() {
                    old(self)@.store.write_var(0, 0, old(self)@.scopes[0].len(), value)
                } else {
                    old(self)@.store.extend_frame(0, value)
                }),
            },
    {
        let ghost before = self@;
        proof {
            self.resolver.lemma_has_scope();
            assert(before.store.frame_at(0, 0) == Some(0usize));
        }
        proof {
            if before.sound() && good_value(code_of(before.program), before.store, value) {
                let slot = match name_position(before.scopes[0], name@, 0) {
                    Some(slot) => slot as nat,
                    None => before.scopes[0].len(),
                };
                if before.store.write_var(0, 0, slot, value) is Some {
                    lemma_write_keeps_good(code_of(before.program), before.store, 0, 0, slot, value);
                } else {
                    lemma_extend_keeps_good(code_of(before.program), before.store, 0, value);
                }
            }
        }
        match self.resolver.find_outer(&name) {
            Some(slot) => {
                let done = self.store.assign(0, 0, slot, value);
                assert(done);
                assert(self@.store.frames[0].slots.len() == before.store.frames[0].slots.len());
            },
            None => {
                assert(name_position(before.scopes[0], name@, 0) is None);
                match self.resolver.declare_outer(name) {
                    Ok(slot) => {
                        assert(slot == before.scopes[0].len());
                        assert(self@.scopes[0].len() == before.scopes[0].len() + 1);
                        let filled = self.store.assign(0, 0, slot, value);
                        if !filled {
                            let done = self.store.push_slot(0, value);
                            assert(done);
                            assert(self@.store.frames[0].slots.len()
                                == before.store.frames[0].slots.len() + 1);
                        } else {
                            assert(self@.store.frames[0].slots.len()
                                == before.store.frames[0].slots.len());
                        }
                    },
                    Err(_) => {},
                }
            },
        }
    }

    /// The value of the global `name`.
    pub fn get_var(&self, name: &Vec<char>) -> (v: Option<Value>)
        ensures
            v == self@.global(name@),
    {
        match self.resolver.find_outer(name) {
            Some(slot) => self.store.lookup(0, 0, slot),
            None => None,
        }
    }

    /// The number of number literals in what was compiled.
    pub fn number_count(&self) -> (n: usize)
        ensures
            n == self@.number_texts.len(),
    {
        self.number_texts.len()
    }

    /// The text of the number literal `k`.
    pub fn number_text(&self, k: usize) -> (text: Option<Vec<char>>)
        ensures
            match text {
                Some(t) => k < self@.number_texts.len() && t@ == self@.number_texts[k as int],
                None => k >= self@.number_texts.len(),
            },
    {
        if k < self.number_texts.len() {
            Some(copy_text(&self.number_texts[k]))
        } else {
            None
        }
    }

    /// Gives the number literal `k` its value, the encoding of a
    /// double-precision number, and says whether there is such a literal.
    /// Compilation finds the value of a whole number below 2^53 itself; a
    /// literal with a fraction, or a longer one, is zero until the host,
    /// which has the floating-point arithmetic, gives its value here.
    pub fn set_number(&mut self, k: usize, bits: u64) -> (done: bool)
        requires
            old(self)@.wf(),
        ensures
            final(self)@.wf(),
            final(self)@.scopes == old(self)@.scopes,
            final(self)@.store == old(self)@.store,
            final(self)@.number_texts == old(self)@.number_texts,
            final(self)@.program.funcs == old(self)@.program.funcs,
            final(self)@.program.strings == old(self)@.program.strings,
            done == (k < old(self)@.program.numbers.len()),
            done ==> final(self)@.program.numbers == old(self)@.program.numbers.update(
                k as int,
                bits,
            ),
            !done ==> final(self)@.program.numbers == old(self)@.program.numbers,
    {
        if k < self.program.numbers.len() {
            self.program.numbers[k] = bits;
            true
        } else {
            false
        }
    }

    /// Compiles everything that the reader is about to deliver. On an
    /// error nothing of the engine is left.
    pub fn compile(self, reader: &mut CharReader) -> (r: Result<Bleep, ParseError>)
        requires
            self@.wf(),
            old(reader).wf(),
            old(reader).line() + old(reader).col() + old(reader).pending().len() < u32::MAX,
        ensures
            match compiled(source_of(*old(reader)), self@) {
                Ok(after) => r is Ok && r.unwrap()@ == after && after.wf(),
                Err(err) => r == Err::<Bleep, ParseError>(err),
            },
            self@.sound() && (tokens_from(source_of(*old(reader)), 0, Seq::empty()) matches Ok(
                toks,
            ) ==> room(toks, self@.start()) && spare(toks, self@.start())) ==> (r matches Ok(after)
                ==> after@.sound()),
    {
        let ghost before = self@;
        proof {
            if before.sound() && (tokens_from(source_of(*reader), 0, Seq::empty()) matches Ok(toks)
                ==> room(toks, before.start()) && spare(toks, before.start())) {
                lemma_compiled_is_sound(source_of(*reader), before);
            }
        }
        let tokens = match read_tokens(reader) {
            Ok(tokens) => tokens,
            Err(err) => {
                return Err(err);
            },
        };
        let Bleep { resolver, program, number_texts, store } = self;
        let Program { funcs, numbers, strings } = program;
        let mut parser = Parser { tokens, pos: 0, resolver, funcs, numbers: number_texts, strings };
        assert(parser@ =~= before.start());
        let bound = match parser.parse_program() {
            Ok(bound) => bound,
            Err(err) => {
                return Err(err);
            },
        };
        let Parser { tokens: _, pos: _, resolver, funcs, numbers: number_texts, strings } = parser;
        let mut numbers = numbers;
        let mut store = store;
        let ghost parsed = parser@;
        // Every number literal gets a constant.
        while numbers.len() < number_texts.len()
            invariant
                filled(numbers@, texts_of(number_texts)) == filled(
                    before.program.numbers,
                    texts_of(number_texts),
                ),
            decreases number_texts@.len() - numbers@.len(),
        {
            let bits = bits_of_literal(&number_texts[numbers.len()]);
            numbers.push(bits);
        }
        // Every global gets a slot.
        let size = resolver.outer_len();
        let mut n = match store.slot_count(0) {
            Some(n) => n,
            None => size,
        };
        while n < size
            invariant
                store@.frames.len() >= 1,
                n == store@.frames[0].slots.len(),
                grown(store@, size as nat) == grown(before.store, size as nat),
            decreases size - n,
        {
            let _ = store.push_slot(0, Value::Null);
            n += 1;
        }
        assert(store@ == grown(before.store, size as nat));
        // Every function is bound to its name.
        let mut i: usize = 0;
        while i < bound.len()
            invariant
                i <= bound@.len(),
                store@.frames.len() >= 1,
                store@.frames[0].slots.len() >= size,
                installed(store@, bound@, i as int) == installed(
                    grown(before.store, size as nat),
                    bound@,
                    0,
                ),
            decreases bound@.len() - i,
        {
            let (slot, k) = bound[i];
            let _ = store.assign(0, 0, slot, Value::Closure(k, 0));
            i += 1;
        }
        proof {
            resolver.lemma_has_scope();
        }
        assert(numbers@ == filled(before.program.numbers, texts_of(number_texts)));
        let after = Bleep {
            resolver,
            program: Program { funcs, numbers, strings },
            number_texts,
            store,
        };
        assert(after@.program =~= (ProgramModel {
            funcs: parsed.funcs,
            numbers: filled(before.program.numbers, parsed.numbers),
            strings: parsed.strings,
        }));
        Ok(after)
    }

    /// Calls the global `name` on `args`, from the global frame, with
    /// `fuel` as the allowance of nested calls and loop rounds. Where no
    /// global has that name, nothing is called.
    pub fn call_function<H: Host>(
        &mut self,
        host: &mut H,
        name: &Vec<char>,
        args: Vec<Value>,
        fuel: usize,
    ) -> (r: Result<Value, RunError>)
        requires
            old(self)@.wf(),
        ensures
            final(self)@.scopes == old(self)@.scopes,
            final(self)@.program == old(self)@.program,
            final(self)@.number_texts == old(self)@.number_texts,
            trace_grows(old(self)@.store, final(self)@.store),
            old(self)@.global(name@) is None ==> r == Err::<Value, RunError>(
                RunError::NotCallable,
            ) && final(self)@.store == old(self)@.store,
            old(self)@.global(name@) matches Some(f) ==> forall|o: Oracle, t: Seq<CallRecord>|
                #[trigger] agrees(o, t) && continues(t, final(self)@.store)
                    ==> semantics::call_value(
                    old(self)@.program,
                    o,
                    old(self)@.store,
                    0,
                    f,
                    args@,
                    fuel as nat,
                ) == (final(self)@.store, r),
            old(self)@.sound() && good_values(code_of(old(self)@.program), old(self)@.store, args@)
                && tame_trace(final(self)@.store.trace) ==> final(self)@.sound() && r != Err::<
                Value,
                RunError,
            >(RunError::BadAddress) && r != Err::<Value, RunError>(RunError::BadConstant),
    {
        let ghost before = self@;
        let ghost handed = args@;
        match self.get_var(name) {
            Some(f) => {
                let r = call_value(&self.program, host, &mut self.store, 0, f, args, fuel);
                proof {
                    let trace = self@.store.trace;
                    if before.sound() && good_values(code_of(before.program), before.store, handed)
                        && tame_trace(trace) {
                        let o = oracle_of(trace);
                        assert(agrees(o, trace));
                        assert(continues(trace, self@.store));
                        assert(tame(o));
                        assert(semantics::call_value(
                            before.program,
                            o,
                            before.store,
                            0,
                            f,
                            handed,
                            fuel as nat,
                        ) == (self@.store, r));
                        self.store.lemma_frames_are_counted();
                        lemma_call_is_safe(before, o, name@, handed, fuel as nat);
                    }
                }
                r
            },
            None => Err(RunError::NotCallable),
        }
    }

    /// Puts a string into the store and returns the value that refers to it.
    pub fn new_string(&mut self, text: Vec<char>) -> (v: Value)
        ensures
            v == Value::Str(old(self)@.store.strings.len() as usize),
            final(self)@ == (BleepModel {
                store: old(self)@.store.push_string(text@),
                ..old(self)@
            }),
    {
        self.store.new_string(text)
    }

    /// Puts a vector into the store and returns the value that refers to it.
    pub fn new_vector(&mut self, items: Vec<Value>) -> (v: Value)
        ensures
            v == Value::Vector(old(self)@.store.vectors.len() as usize),
            final(self)@ == (BleepModel {
                store: old(self)@.store.push_vector(items@),
                ..old(self)@
            }),
    {
        self.store.new_vector(items)
    }

    /// Puts an empty map into the store and returns the value that refers
    /// to it.
    pub fn new_map(&mut self) -> (v: Value)
        ensures
            v == Value::Mapping(old(self)@.store.maps.len() as usize),
            final(self)@ == (BleepModel {
                store: old(self)@.store.push_map(Seq::empty()),
                ..old(self)@
            }),
    {
        self.store.new_map(Vec::new())
    }

    /// Reads the element of `container` at `index`.
    pub fn get_element(&self, container: Value, index: Value) -> (r: Result<Value, RunError>)
        ensures
            r == self@.store.get_element(container, index),
    {
        self.store.get_element(container, index)
    }

    /// Assigns `v` to the element of `container` at `index`.
    pub fn set_element(&mut self, container: Value, index: Value, v: Value) -> (r: Result<
        (),
        RunError,
    >)
        ensures
            match old(self)@.store.set_element(container, index, v) {
                Ok(s) => r is Ok && final(self)@ == (BleepModel { store: s, ..old(self)@ }),
                Err(e) => r == Err::<(), RunError>(e) && final(self)@ == old(self)@,
            },
    {
        self.store.set_element(container, index, v)
    }

    /// The rendering of every function compiled so far, for diagnosis.
    pub fn dump_bytecode(&self) -> (out: Vec<char>)
        ensures
            out@ == render_program(self@.program, self@.number_texts, Seq::empty(), 0),
    {
        fmt_program(&self.program, &self.number_texts)
    }

    /// The store of the engine, to read.
    pub fn store(&self) -> (s: &Store)
        ensures
            s@ == self@.store,
    {
        &self.store
    }
}

/// Every literal has a constant once the constants are filled up.
pub proof fn lemma_filled_len(numbers: Seq<u64>, texts: Seq<Seq<char>>)
    ensures
        filled(numbers, texts).len() >= texts.len(),
        filled(numbers, texts).len() >= numbers.len(),
    decreases texts.len() - numbers.len(),
{
    if numbers.len() < texts.len() {
        lemma_filled_len(numbers.push(literal_bits(texts[numbers.len() as int])), texts);
    }
}

/// Filling the global frame up keeps a good store good, and leaves the
/// frame with the slots asked for.
pub proof fn lemma_grown_is_good(code: Code, st: StoreModel, size: nat)
    requires
        good_store(code, st),
        st.frames.len() >= 1,
    ensures
        good_store(code, grown(st, size)),
        frames_held(st, grown(st, size)),
        grown(st, size).frames.len() == st.frames.len(),
        grown(st, size).frames[0].slots.len() >= size,
    decreases size - st.frames[0].slots.len(),
{
    if st.frames[0].slots.len() < size {
        let next = st.extend_frame(0, Value::Null).unwrap();
        lemma_extend_keeps_good(code, st, 0, Value::Null);
        lemma_grown_is_good(code, next, size);
    }
}

/// Binding resolved functions to slots of the global frame, as closures
/// over that frame, keeps a good store good.
pub proof fn lemma_installed_is_good(
    code: Code,
    st: StoreModel,
    bound: Seq<(usize, usize)>,
    i: int,
    shape: Seq<nat>,
)
    requires
        good_store(code, st),
        fits(st, 0, shape),
        0 <= i,
        forall|j: int| i <= j < bound.len() ==> resolved_func(code, (#[trigger] bound[j]).1, shape),
    ensures
        good_store(code, installed(st, bound, i)),
        frames_held(st, installed(st, bound, i)),
    decreases bound.len() - i,
{
    if i < bound.len() {
        let closure = Value::Closure(bound[i].1, 0);
        lemma_closure_is_good(code, st, bound[i].1, 0, shape);
        match st.write_var(0, 0, bound[i].0 as nat, closure) {
            Some(st1) => {
                lemma_write_keeps_good(code, st, 0, 0, bound[i].0 as nat, closure);
                lemma_fits_held(st, st1, 0, shape);
                lemma_installed_is_good(code, st1, bound, i + 1, shape);
            },
            None => {
                lemma_installed_is_good(code, st, bound, i + 1, shape);
            },
        }
    }
}

/// Compilation keeps the resolver's promise: where the engine was sound
/// before, it is sound after, so every function of the source is resolved
/// and bound to a closure that is good. The counts of the engine and the
/// number of tokens of the source must fit the machine's numbers together.
pub proof fn lemma_compiled_is_sound(src: Source, b: BleepModel)
    requires
        b.sound(),
        tokens_from(src, 0, Seq::empty()) matches Ok(toks) ==> room(toks, b.start()) && spare(
            toks,
            b.start(),
        ),
    ensures
        compiled(src, b) matches Ok(after) ==> after.sound(),
{
    match tokens_from(src, 0, Seq::empty()) {
        Ok(toks) => {
            lemma_parse_program(toks, b.start(), Seq::empty());
            match grammar::parse_program(toks, b.start(), Seq::empty()) {
                Ok((bound, st)) => {
                    let size = st.scopes[0].len();
                    let shape = shape_of(st.scopes);
                    assert(st.scopes.last() == st.scopes[0]);
                    let after = compiled(src, b).unwrap();
                    let code = code_of(after.program);
                    lemma_filled_len(b.program.numbers, st.numbers);
                    assert(code_kept(code_of(b.program), code));
                    assert(code_kept(code_at(st), code));
                    lemma_more_funcs_keep_good(code_of(b.program), code, b.store);
                    lemma_grown_is_good(code, b.store, size);
                    let full = grown(b.store, size);
                    assert(fits(full, 0, shape)) by {
                        assert(full.frame_at(0, 0) == Some(0usize));
                    }
                    lemma_shape_within_itself(shape);
                    assert forall|j: int| 0 <= j < bound.len() implies resolved_func(
                        code,
                        (#[trigger] bound[j]).1,
                        shape,
                    ) by {
                        lemma_func_stays_resolved(code_at(st), bound[j].1, shape, code, shape);
                    }
                    lemma_installed_is_good(code, full, bound, 0, shape);
                },
                Err(_) => {},
            }
        },
        Err(_) => {},
    }
}

/// A call into a sound engine meets no bad address and no bad constant,
/// whatever the host answers, as long as it answers with no closure and
/// with neither of these errors itself, and the store after it is good
/// again. The arguments must be
/// good, and the frames of the run must be as many as the machine can
/// count.
pub proof fn lemma_call_is_safe(
    b: BleepModel,
    o: Oracle,
    name: Seq<char>,
    args: Seq<Value>,
    fuel: nat,
)
    requires
        b.sound(),
        b.global(name) is Some,
        good_values(code_of(b.program), b.store, args),
        tame(o),
        semantics::call_value(b.program, o, b.store, 0, b.global(name).unwrap(), args, fuel).0.frames.len()
            <= usize::MAX,
    ensures
        ({
            let (after, r) = semantics::call_value(
                b.program,
                o,
                b.store,
                0,
                b.global(name).unwrap(),
                args,
                fuel,
            );
            &&& r != Err::<Value, RunError>(RunError::BadAddress)
            &&& r != Err::<Value, RunError>(RunError::BadConstant)
            &&& good_store(code_of(b.program), after)
            &&& frames_held(b.store, after)
        }),
{
    let slot = name_position(b.scopes[0], name, 0).unwrap();
    lemma_read_is_good(code_of(b.program), b.store, 0, 0, slot as nat);
    lemma_call_value_safe(b.program, o, b.store, 0, b.global(name).unwrap(), args, fuel);
}

} // verus!
