//! Chained scopes. Frames live in a session and are known by their position
//! in it, so that closures and callers can share one frame and a frame can be
//! reached from the closures it holds.

use vstd::prelude::*;
use vstd::string::StringExecFns;
use fnv::FnvHashMap;
use crate::data::{AtomType, AtomVal, AtomError, share, values_of, unit_of, c_nil};
use crate::model::{Value, Frame, State, no_bindings, open_frame, define, lookup, resolve, set_binding, bind, text_le, ordered, binding_line, binding_lines, lists_bindings, joined, frame_text};
use crate::text::{text_at_most, lemma_text_le_total, lemma_insert_at};

verus! {

/// `fnv::FnvHasher`, the hasher of the tables. Nothing is said of it but that
/// it exists.
#[verifier::external_type_specification]
#[verifier::external_body]
pub struct ExFnvHasher(fnv::FnvHasher);

/// `core::hash::BuildHasherDefault`, which makes the tables' hashers. Nothing
/// is said of it but that it exists.
#[verifier::external_type_specification]
#[verifier::external_body]
#[verifier::reject_recursive_types(H)]
pub struct ExBuildHasherDefault<H>(core::hash::BuildHasherDefault<H>);

/// The bindings of one frame.
pub type Table = FnvHashMap<String, AtomVal>;

/// What a table holds: for each name that is bound, the value bound to it.
pub uninterp spec fn table_view(t: Table) -> Map<Seq<char>, Value>;

/// `FnvHashMap::default` makes a map that holds nothing.
#[verifier::external_body]
fn table_new() -> (t: Table)
    ensures
        table_view(t) == no_bindings(),
{
    FnvHashMap::default()
}

/// `HashMap::insert` binds the key to the value, in place of what the key was
/// bound to before, and leaves every other key as it was.
#[verifier::external_body]
fn table_insert(t: &mut Table, key: String, value: AtomVal)
    ensures
        table_view(*final(t)) == table_view(*old(t)).insert(key@, value@),
{
    t.insert(key, value);
}

/// `HashMap::get` finds what the key is bound to, if it is bound.
#[verifier::external_body]
fn table_get(t: &Table, key: &str) -> (r: Option<AtomVal>)
    ensures
        r matches Some(v) ==> table_view(*t).contains_key(key@) && table_view(*t)[key@] == v@,
        r is None ==> !table_view(*t).contains_key(key@),
{
    t.get(key).cloned()
}

/// The models of a sequence of bindings.
pub open spec fn pairs_of(entries: Seq<(String, AtomVal)>) -> Seq<(Seq<char>, Value)> {
    Seq::new(entries.len(), |i: int| (entries[i].0@, entries[i].1@))
}

/// `HashMap::iter` visits every binding of the map once, in an order that the
/// map does not promise.
#[verifier::external_body]
fn table_entries(t: &Table) -> (r: Vec<(String, AtomVal)>)
    ensures
        lists_bindings(pairs_of(r@), table_view(*t)),
{
    t.iter().map(|(k, v)| (k.clone(), v.clone())).collect()
}

/// A handle to a frame: its position in the session.
pub type Env = usize;

/// One frame: a table of its own bindings and the frame it was opened in.
pub struct EnvType {
    parent: Option<Env>,
    data: Table,
}

impl View for EnvType {
    type V = Frame;

    closed spec fn view(&self) -> Frame {
        Frame {
            parent: match self.parent {
                Some(p) => Some(p as nat),
                None => None,
            },
            data: table_view(self.data),
        }
    }
}

/// The texts of a sequence of strings.
spec fn views_of(lines: Seq<String>) -> Seq<Seq<char>> {
    Seq::new(lines.len(), |i: int| lines[i]@)
}

/// Whether a binding stands among the first `count` of a sequence.
spec fn occurs_in(x: (Seq<char>, Value), s: Seq<(Seq<char>, Value)>, count: int) -> bool {
    exists|i: int| 0 <= i < count && s[i] == x
}

/// Whether `order` holds the first `count` bindings of `pairs`, each once,
/// and names no key twice.
#[verifier::opaque]
spec fn arranges(
    order: Seq<(Seq<char>, Value)>,
    pairs: Seq<(Seq<char>, Value)>,
    count: int,
) -> bool {
    &&& order.len() == count
    &&& count <= pairs.len()
    &&& forall|a: int, b: int|
        0 <= a < b < count ==> (#[trigger] order[a]).0 != (#[trigger] order[b]).0
    &&& forall|j: int| 0 <= j < count ==> #[trigger] occurs_in(order[j], pairs, count)
    &&& forall|i: int| 0 <= i < count ==> #[trigger] occurs_in(pairs[i], order, count)
}

/// Whether no two bindings of a sequence have the same key.
#[verifier::opaque]
spec fn no_key_twice(pairs: Seq<(Seq<char>, Value)>) -> bool {
    forall|i: int, j: int|
        0 <= i < j < pairs.len() ==> (#[trigger] pairs[i]).0 != (#[trigger] pairs[j]).0
}

/// Bindings that list a frame name no key twice.
proof fn lemma_listing_has_no_key_twice(pairs: Seq<(Seq<char>, Value)>, data: Map<Seq<char>, Value>)
    requires
        lists_bindings(pairs, data),
    ensures
        no_key_twice(pairs),
{
    reveal(lists_bindings);
    reveal(no_key_twice);
}

/// Putting the next binding of `pairs` anywhere into an arrangement of the
/// bindings before it gives an arrangement of one binding more.
proof fn lemma_arranges_insert(
    order: Seq<(Seq<char>, Value)>,
    pairs: Seq<(Seq<char>, Value)>,
    count: int,
    p: int,
)
    requires
        arranges(order, pairs, count),
        0 <= p <= count < pairs.len(),
        no_key_twice(pairs),
    ensures
        arranges(order.insert(p, pairs[count]), pairs, count + 1),
{
    reveal(arranges);
    reveal(no_key_twice);
    let next = order.insert(p, pairs[count]);
    lemma_insert_at(order, p, pairs[count]);
    assert forall|a: int, b: int| 0 <= a < b < count + 1 implies (#[trigger] next[a]).0 != (
    #[trigger] next[b]).0 by {
        let a0 = if a < p {
            a
        } else {
            a - 1
        };
        let b0 = if b < p {
            b
        } else {
            b - 1
        };
        if a == p {
            assert(next[b] == order[b0]);
            assert(occurs_in(order[b0], pairs, count));
            let i = choose|i: int| 0 <= i < count && pairs[i] == order[b0];
            assert(pairs[i].0 != pairs[count].0);
        } else if b == p {
            assert(next[a] == order[a0]);
            assert(occurs_in(order[a0], pairs, count));
            let i = choose|i: int| 0 <= i < count && pairs[i] == order[a0];
            assert(pairs[i].0 != pairs[count].0);
        } else {
            assert(next[a] == order[a0]);
            assert(next[b] == order[b0]);
            assert(order[a0].0 != order[b0].0);
        }
    }
    assert forall|j: int| 0 <= j < count + 1 implies #[trigger] occurs_in(
        next[j],
        pairs,
        count + 1,
    ) by {
        if j < p {
            assert(next[j] == order[j]);
            assert(occurs_in(order[j], pairs, count));
            let i = choose|i: int| 0 <= i < count && pairs[i] == order[j];
            assert(pairs[i] == next[j]);
        } else if j == p {
            assert(pairs[count] == next[j]);
        } else {
            assert(next[j] == order[j - 1]);
            assert(occurs_in(order[j - 1], pairs, count));
            let i = choose|i: int| 0 <= i < count && pairs[i] == order[j - 1];
            assert(pairs[i] == next[j]);
        }
    }
    assert forall|i: int| 0 <= i < count + 1 implies #[trigger] occurs_in(
        pairs[i],
        next,
        count + 1,
    ) by {
        if i == count {
            assert(next[p] == pairs[i]);
        } else {
            assert(occurs_in(pairs[i], order, count));
            let j = choose|j: int| 0 <= j < count && order[j] == pairs[i];
            if j < p {
                assert(next[j] == pairs[i]);
            } else {
                assert(next[j + 1] == pairs[i]);
            }
        }
    }
}

/// An arrangement of all the bindings that list a frame lists the frame too.
proof fn lemma_arrangement_lists(
    pairs: Seq<(Seq<char>, Value)>,
    order: Seq<(Seq<char>, Value)>,
    data: Map<Seq<char>, Value>,
)
    requires
        lists_bindings(pairs, data),
        arranges(order, pairs, pairs.len() as int),
    ensures
        lists_bindings(order, data),
{
    reveal(arranges);
    reveal(lists_bindings);
    let count = pairs.len() as int;
    assert forall|j: int| 0 <= j < order.len() implies data.contains_key((#[trigger] order[j]).0)
        && data[order[j].0] == order[j].1 by {
        assert(occurs_in(order[j], pairs, count));
        let i = choose|i: int| 0 <= i < count && pairs[i] == order[j];
        assert(data.contains_key(pairs[i].0));
    }
    assert forall|k: Seq<char>| #[trigger] data.contains_key(k) implies exists|j: int|
        0 <= j < order.len() && (#[trigger] order[j]).0 == k by {
        let i = choose|i: int| 0 <= i < pairs.len() && (#[trigger] pairs[i]).0 == k;
        assert(occurs_in(pairs[i], order, count));
        let j = choose|j: int| 0 <= j < count && order[j] == pairs[i];
        assert(order[j].0 == k);
    }
}

/// A line put between a line that is not behind it and one that it is not
/// behind keeps the lines in order.
proof fn lemma_ordered_insert(lines: Seq<Seq<char>>, p: int, line: Seq<char>)
    requires
        ordered(lines),
        0 <= p <= lines.len(),
        p > 0 ==> text_le(lines[p - 1], line, 0),
        p < lines.len() ==> text_le(line, lines[p], 0),
    ensures
        ordered(lines.insert(p, line)),
{
    let next = lines.insert(p, line);
    lemma_insert_at(lines, p, line);
    assert forall|i: int| 0 <= i < next.len() - 1 implies text_le(
        #[trigger] next[i],
        next[i + 1],
        0,
    ) by {
        if i + 1 < p {
            assert(next[i] == lines[i]);
            assert(next[i + 1] == lines[i + 1]);
        } else if i + 1 == p {
            assert(next[i] == lines[i]);
        } else if i == p {
            assert(next[i + 1] == lines[i]);
        } else {
            assert(next[i] == lines[i - 1]);
            assert(next[i + 1] == lines[i]);
            assert(text_le(lines[i - 1], lines[i - 1 + 1], 0));
        }
    }
}

/// Puts a line into lines that are in order, at a place that keeps them so.
fn insert_line(lines: &mut Vec<String>, line: String) -> (p: usize)
    requires
        ordered(views_of(old(lines)@)),
    ensures
        p <= old(lines)@.len(),
        final(lines)@ == old(lines)@.insert(p as int, line),
        views_of(final(lines)@) == views_of(old(lines)@).insert(p as int, line@),
        ordered(views_of(final(lines)@)),
{
    let mut p: usize = 0;
    while p < lines.len() && text_at_most(lines[p].as_str(), line.as_str())
        invariant
            p <= lines.len(),
            p > 0 ==> text_le(lines@[p - 1]@, line@, 0),
        decreases lines.len() - p,
    {
        p = p + 1;
    }
    proof {
        if p < lines.len() {
            lemma_text_le_total(lines@[p as int]@, line@, 0);
        }
        lemma_ordered_insert(views_of(lines@), p as int, line@);
        lemma_insert_at(lines@, p as int, line);
        lemma_insert_at(views_of(lines@), p as int, line@);
        assert(views_of(lines@.insert(p as int, line)) =~= views_of(lines@).insert(
            p as int,
            line@,
        ));
    }
    lines.insert(p, line);
    p
}

/// The lines that show the bindings, in order.
fn sorted_lines(entries: &Vec<(String, AtomVal)>) -> (r: (Vec<String>, Ghost<Seq<(Seq<char>, Value)>>))
    requires
        no_key_twice(pairs_of(entries@)),
    ensures
        arranges(r.1@, pairs_of(entries@), entries@.len() as int),
        views_of(r.0@) == binding_lines(r.1@),
        ordered(binding_lines(r.1@)),
{
    let ghost pairs = pairs_of(entries@);
    let mut lines: Vec<String> = Vec::new();
    let ghost mut order: Seq<(Seq<char>, Value)> = Seq::empty();
    let mut k: usize = 0;
    assert(views_of(lines@) =~= binding_lines(order));
    assert(arranges(order, pairs, 0)) by {
        reveal(arranges);
    }
    while k < entries.len()
        invariant
            k <= entries.len(),
            pairs == pairs_of(entries@),
            no_key_twice(pairs),
            arranges(order, pairs, k as int),
            order.len() == k,
            lines@.len() == k,
            views_of(lines@) == binding_lines(order),
            ordered(views_of(lines@)),
        decreases entries.len() - k,
    {
        let mut line = entries[k].0.clone();
        line.append(" ");
        let value: &AtomType = &*entries[k].1;
        value.push_rendering(&mut line, false);
        assert(line@ =~= binding_line(pairs[k as int]));
        let p = insert_line(&mut lines, line);
        proof {
            lemma_arranges_insert(order, pairs, k as int, p as int);
            lemma_insert_at(order, p as int, pairs[k as int]);
            lemma_insert_at(binding_lines(order), p as int, binding_line(pairs[k as int]));
            assert(binding_lines(order.insert(p as int, pairs[k as int])) =~= binding_lines(
                order,
            ).insert(p as int, binding_line(pairs[k as int])));
            order = order.insert(p as int, pairs[k as int]);
        }
        k = k + 1;
    }
    (lines, Ghost(order))
}

impl EnvType {
    /// The frame's own bindings between braces, each as its name, a blank
    /// and its value, the bindings separated by blanks and sorted as lines.
    pub fn format(&self) -> (s: String)
        ensures
            exists|pairs: Seq<(Seq<char>, Value)>|
                lists_bindings(pairs, self@.data) && ordered(binding_lines(pairs)) && s@
                    == #[trigger] frame_text(pairs),
    {
        let entries = table_entries(&self.data);
        proof {
            lemma_listing_has_no_key_twice(pairs_of(entries@), table_view(self.data));
        }
        let (lines, Ghost(order)) = sorted_lines(&entries);
        proof {
            lemma_arrangement_lists(pairs_of(entries@), order, table_view(self.data));
        }
        let mut s = String::new();
        s.push('{');
        let ghost opened = s@;
        let mut i: usize = 0;
        while i < lines.len()
            invariant
                i <= lines.len(),
                views_of(lines@) == binding_lines(order),
                s@ =~= opened + joined(binding_lines(order), i as nat),
            decreases lines.len() - i,
        {
            if i > 0 {
                s.append(" ");
            }
            assert(views_of(lines@)[i as int] == lines@[i as int]@);
            s.append(lines[i].as_str());
            i = i + 1;
        }
        s.push('}');
        proof {
            reveal_strlit("{");
            reveal_strlit("}");
            assert(lines@.len() == views_of(lines@).len());
            assert(s@ =~= frame_text(order));
        }
        s
    }
}

/// Bounds that turn runaway work into a reported failure.
#[derive(Clone, Copy, Debug)]
pub struct Limits {
    /// How deeply list forms may nest while they are evaluated.
    pub depth: usize,
    /// How often macros may take the place of one form, one after another.
    pub expansions: u64,
    /// How often one `loop` may run its body again.
    pub iterations: u64,
}

/// The root context of an interpreter: every frame made so far, the text
/// printed so far, and the bounds on evaluation.
pub struct Session {
    frames: Vec<EnvType>,
    out: String,
    limits: Limits,
}

impl View for Session {
    type V = State;

    closed spec fn view(&self) -> State {
        State { frames: Seq::new(self.frames@.len(), |i: int| self.frames@[i]@), out: self.out@ }
    }
}

impl Session {
    /// The bounds that evaluations in this session run under.
    pub closed spec fn limits(&self) -> Limits {
        self.limits
    }

    /// A session without frames and without output.
    pub fn new(limits: Limits) -> (s: Session)
        ensures
            s@ == (State { frames: Seq::empty(), out: Seq::empty() }),
            s.limits() == limits,
    {
        let s = Session { frames: Vec::new(), out: String::new(), limits };
        assert(s@.frames =~= Seq::empty());
        s
    }

    /// Appends text to what the session has printed.
    pub fn emit(&mut self, text: &str)
        ensures
            final(self)@ == (State { out: old(self)@.out + text@, ..old(self)@ }),
            final(self).limits() == old(self).limits(),
    {
        self.out.append(text);
    }

    /// Hands out what the session has printed and starts afresh.
    pub fn take_output(&mut self) -> (text: String)
        ensures
            text@ == old(self)@.out,
            final(self)@ == (State { out: Seq::empty(), ..old(self)@ }),
            final(self).limits() == old(self).limits(),
    {
        let mut text = String::new();
        std::mem::swap(&mut text, &mut self.out);
        text
    }

    /// The bounds that evaluations in this session run under.
    pub fn get_limits(&self) -> (l: Limits)
        ensures
            l == self.limits(),
    {
        self.limits
    }

    /// Replaces the bounds; frames and output stay as they are.
    pub fn set_limits(&mut self, limits: Limits)
        ensures
            final(self)@ == old(self)@,
            final(self).limits() == limits,
    {
        self.limits = limits;
    }

    /// The frame behind a handle, if the session holds one there.
    pub fn frame(&self, env: &Env) -> (r: Option<&EnvType>)
        ensures
            *env < self@.frames.len() ==> (r matches Some(f) && f@ == self@.frames[*env as int]),
            *env >= self@.frames.len() ==> r is None,
    {
        if *env < self.frames.len() {
            Some(&self.frames[*env])
        } else {
            None
        }
    }

    /// How many frames the session holds.
    pub fn frame_count(&self) -> (n: usize)
        ensures
            n == self@.frames.len(),
    {
        self.frames.len()
    }
}

/// Opens a frame with the given parent and returns its handle.
pub fn c_env(env: Option<Env>, session: &mut Session) -> (r: Env)
    ensures
        r == old(session)@.frames.len(),
        final(session)@ == open_frame(
            old(session)@,
            match env {
                Some(p) => Some(p as nat),
                None => None,
            },
        ),
        final(session).limits() == old(session).limits(),
{
    let r = session.frames.len();
    session.frames.push(EnvType { parent: env, data: table_new() });
    assert(session@.frames =~= open_frame(
        old(session)@,
        match env {
            Some(p) => Some(p as nat),
            None => None,
        },
    ).frames);
    r
}

/// Binds `key` to `value` in the frame `env` itself, never in a frame further
/// up the chain. Only a symbol can be bound, and only in a frame that exists.
pub fn env_set(env: &Env, key: &AtomVal, value: AtomVal, session: &mut Session) -> (r: Result<
    (),
    AtomError,
>)
    ensures
        final(session).limits() == old(session).limits(),
        (unit_of(r), final(session)@) == set_binding(old(session)@, *env as nat, key@, value@),
{
    match &**key {
        AtomType::Symbol(name) => {
            if *env < session.frames.len() {
                table_insert(&mut session.frames[*env].data, name.clone(), value);
                assert(session@.frames =~= define(
                    old(session)@,
                    *env as nat,
                    name@,
                    value@,
                ).frames);
                Ok(())
            } else {
                Err(AtomError::InvalidArgument("unknown environment".to_string()))
            }
        },
        other => Err(other.mismatch("Symbol")),
    }
}

/// Looks a name up from frame `env` outwards.
fn env_find_inner(env: &Env, key: &str, session: &Session) -> (r: Option<(Env, AtomVal)>)
    ensures
        r matches Some((_, v)) ==> lookup(session@, *env as nat, key@) == Some(v@),
        r is None ==> lookup(session@, *env as nat, key@) is None,
{
    let mut at: usize = *env;
    loop
        invariant
            lookup(session@, *env as nat, key@) == lookup(session@, at as nat, key@),
        decreases at,
    {
        if at >= session.frames.len() {
            return None;
        }
        match table_get(&session.frames[at].data, key) {
            Some(value) => {
                return Some((at, value));
            },
            None => {
                match session.frames[at].parent {
                    Some(p) => {
                        if p < at {
                            at = p;
                        } else {
                            return None;
                        }
                    },
                    None => {
                        return None;
                    },
                }
            },
        }
    }
}

fn env_find(env: &Env, key: &AtomVal, session: &Session) -> (r: Option<(Env, AtomVal)>)
    ensures
        r matches Some((_, v)) ==> resolve(session@, *env as nat, key@) == Some(v@),
        r is None ==> resolve(session@, *env as nat, key@) is None,
{
    match &**key {
        AtomType::Symbol(name) => env_find_inner(env, name.as_str(), session),
        _ => None,
    }
}

/// What `key` is bound to as seen from frame `env`: the frame's own binding,
/// else that of the nearest enclosing frame that has one. Nothing but a symbol
/// is ever bound.
pub fn env_get(env: &Env, key: &AtomVal, session: &Session) -> (r: Option<AtomVal>)
    ensures
        r matches Some(v) ==> resolve(session@, *env as nat, key@) == Some(v@),
        r is None ==> resolve(session@, *env as nat, key@) is None,
{
    match env_find(env, key, session) {
        None => None,
        Some((_, value)) => Some(value),
    }
}

/// Binds each parameter, in frame `env`, to the argument at its position, or
/// to `Nil` where there are fewer arguments than parameters.
pub fn env_bind(env: &Env, params: &[AtomVal], args: &[AtomVal], session: &mut Session) -> (r:
    Result<(), AtomError>)
    ensures
        final(session).limits() == old(session).limits(),
        (unit_of(r), final(session)@) == bind(
            old(session)@,
            *env as nat,
            values_of(params@),
            values_of(args@),
            0,
        ),
{
    let mut index: usize = 0;
    while index < params.len()
        invariant
            index <= params.len(),
            session.limits() == old(session).limits(),
            bind(old(session)@, *env as nat, values_of(params@), values_of(args@), 0) == bind(
                session@,
                *env as nat,
                values_of(params@),
                values_of(args@),
                index as nat,
            ),
        decreases params.len() - index,
    {
        let value = if index < args.len() {
            share(&args[index])
        } else {
            c_nil()
        };
        match env_set(env, &params[index], value, session) {
            Ok(()) => {},
            Err(e) => {
                return Err(e);
            },
        }
        index = index + 1;
    }
    Ok(())
}

} // verus!
