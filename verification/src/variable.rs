//! Shell variables and their scoping model.
//!
//! A [`VariableSet`] is a stack of contexts; a context is a scope for
//! name-variable bindings. The set has a base context with the same lifetime
//! as the set itself; more contexts can be pushed and popped on a
//! last-in-first-out basis. Bindings in an upper context hide bindings with
//! the same name in lower contexts. Each regular context owns a special
//! anonymous array variable holding the positional parameters.
//!
//! Internally the set keeps, for each name, a stack of bindings sorted by the
//! index of the owning context; the last element of that stack is the visible
//! binding. The well-formedness predicate [`VariableSet::wf`] captures this
//! layout, and every operation states how it transforms the per-name stacks.

use crate::source::Location;
use vstd::prelude::*;
use vstd::string::StrSliceExecFns;

verus! {

/// Value of a variable.
#[derive(Clone, Debug, Eq, PartialEq)]
pub enum Value {
    /// Single string.
    Scalar(String),
    /// Array of strings.
    Array(Vec<String>),
}

pub use Value::{Array, Scalar};

/// Definition of a variable.
#[derive(Clone, Debug, Eq, PartialEq)]
pub struct Variable {
    /// Value of the variable.
    pub value: Value,
    /// Optional location where this variable was assigned.
    ///
    /// If the current value originates from an assignment performed in the
    /// shell session, this is the location of the assignment. Otherwise it is
    /// `None`.
    pub last_assigned_location: Option<Location>,
    /// Whether this variable is exported or not.
    ///
    /// An exported variable is also referred to as an environment variable.
    pub is_exported: bool,
    /// Optional location where this variable was made read-only.
    ///
    /// If this variable is not read-only, this is `None`. Otherwise it is the
    /// location of the simple command that made the variable read-only.
    pub read_only_location: Option<Location>,
}

/// The pieces of a character sequence split at every colon: one more piece
/// than there are colons, in order.
pub open spec fn split_colons(s: Seq<char>) -> Seq<Seq<char>>
    decreases s.len(),
{
    if s.len() == 0 {
        seq![Seq::<char>::empty()]
    } else if s[0] == ':' {
        seq![Seq::<char>::empty()] + split_colons(s.drop_first())
    } else {
        let rest = split_colons(s.drop_first());
        seq![seq![s[0]] + rest[0]] + rest.drop_first()
    }
}

/// The remaining pieces when the first piece continues an accumulated
/// prefix.
pub open spec fn split_with_prefix(prefix: Seq<char>, s: Seq<char>) -> Seq<Seq<char>> {
    seq![prefix + split_colons(s)[0]] + split_colons(s).drop_first()
}

/// Splitting yields at least one piece.
proof fn lemma_split_colons_nonempty(s: Seq<char>)
    ensures
        split_colons(s).len() >= 1,
    decreases s.len(),
{
    if s.len() > 0 {
        lemma_split_colons_nonempty(s.drop_first());
    }
}

impl Value {
    /// Splits the value by colons.
    ///
    /// A `Scalar` is separated at each occurrence of `:`; for an `Array`,
    /// each item is returned without further splitting.
    pub fn split(&self) -> (r: Vec<String>)
        ensures
            match self {
                Value::Scalar(s) => crate::unparse::views_of(r@) == split_colons(s@),
                Value::Array(vs) => r@ == vs@,
            },
    {
        match self {
            Value::Scalar(s) => split_scalar(s.as_str()),
            Value::Array(vs) => {
                let mut r: Vec<String> = Vec::new();
                let mut i: usize = 0;
                while i < vs.len()
                    invariant
                        i <= vs@.len(),
                        r@ =~= vs@.take(i as int),
                    decreases vs@.len() - i,
                {
                    r.push(vs[i].clone());
                    proof {
                        assert(vs@.take(i + 1 as int) =~= vs@.take(i as int).push(vs@[i as int]));
                    }
                    i = i + 1;
                }
                proof {
                    assert(vs@.take(vs@.len() as int) =~= vs@);
                }
                r
            },
        }
    }
}

/// Splits a string at every colon.
fn split_scalar(s: &str) -> (r: Vec<String>)
    ensures
        crate::unparse::views_of(r@) == split_colons(s@),
{
    let n = s.unicode_len();
    let mut r: Vec<String> = Vec::new();
    let mut current = String::new();
    let mut i: usize = 0;
    proof {
        assert(s@.skip(0) =~= s@);
        assert(split_colons(s@) =~= crate::unparse::views_of(r@) + split_with_prefix(
            current@,
            s@.skip(0),
        ));
    }
    while i < n
        invariant
            i <= n,
            n == s@.len(),
            split_colons(s@) =~= crate::unparse::views_of(r@) + split_with_prefix(
                current@,
                s@.skip(i as int),
            ),
        decreases n - i,
    {
        let ghost suffix = s@.skip(i as int);
        proof {
            assert(suffix[0] == s@[i as int]);
            assert(suffix.drop_first() =~= s@.skip(i + 1 as int));
        }
        let c = s.get_char(i);
        proof {
            lemma_split_colons_nonempty(s@.skip(i + 1 as int));
        }
        if c == ':' {
            let ghost prev = r@;
            let ghost finished_view = current@;
            let finished = current;
            current = String::new();
            r.push(finished);
            proof {
                let rest = split_colons(s@.skip(i + 1 as int));
                assert(split_colons(suffix) =~= seq![Seq::<char>::empty()] + rest);
                assert(split_colons(suffix)[0] =~= Seq::<char>::empty());
                assert(split_colons(suffix).drop_first() =~= rest);
                assert(split_with_prefix(finished_view, suffix) =~= seq![finished_view] + rest);
                assert(split_with_prefix(current@, s@.skip(i + 1 as int)) =~= seq![rest[0]]
                    + rest.drop_first());
                assert(seq![rest[0]] + rest.drop_first() =~= rest);
                assert(crate::unparse::views_of(r@) =~= crate::unparse::views_of(prev).push(
                    finished_view,
                ));
                assert(split_colons(s@) =~= crate::unparse::views_of(r@) + split_with_prefix(
                    current@,
                    s@.skip(i + 1 as int),
                ));
            }
        } else {
            let ghost old_current = current@;
            crate::syntax::push_char(&mut current, c);
            proof {
                let rest = split_colons(s@.skip(i + 1 as int));
                assert(split_colons(suffix) =~= seq![seq![c] + rest[0]] + rest.drop_first());
                assert(split_colons(suffix)[0] =~= seq![c] + rest[0]);
                assert(split_colons(suffix).drop_first() =~= rest.drop_first());
                assert(split_with_prefix(old_current, suffix) =~~= seq![old_current + seq![c]
                    + rest[0]] + rest.drop_first());
                assert(current@ =~= old_current + seq![c]);
                assert(split_with_prefix(current@, s@.skip(i + 1 as int)) =~~= seq![old_current
                    + seq![c] + rest[0]] + rest.drop_first());
                assert(split_colons(s@) =~= crate::unparse::views_of(r@) + split_with_prefix(
                    current@,
                    s@.skip(i + 1 as int),
                ));
            }
        }
        i = i + 1;
    }
    proof {
        assert(s@.skip(n as int) =~= Seq::<char>::empty());
        assert(split_colons(Seq::<char>::empty()) =~= seq![Seq::<char>::empty()]);
        assert(split_with_prefix(current@, Seq::<char>::empty()) =~= seq![current@]);
    }
    let ghost prev = r@;
    r.push(current);
    proof {
        assert(crate::unparse::views_of(r@) =~= crate::unparse::views_of(prev).push(r@.last()@));
        assert(split_colons(s@) =~= crate::unparse::views_of(r@));
    }
    r
}

impl Variable {
    /// Whether this variable is read-only or not.
    pub fn is_read_only(&self) -> (r: bool)
        ensures
            r == (self.read_only_location is Some),
    {
        self.read_only_location.is_some()
    }
}

/// A binding together with the index of the context that owns it.
#[derive(Clone, Debug, Eq, PartialEq)]
pub struct VariableInContext {
    /// The binding itself.
    pub variable: Variable,
    /// Index into the context stack of the owning context.
    pub context_index: usize,
}

/// Type of a context.
///
/// The context type affects the behavior of variable
/// [assignment](VariableSet::assign).
#[derive(Clone, Copy, Debug, Eq, PartialEq, Structural)]
pub enum ContextType {
    /// Context for normal assignments.
    ///
    /// The base context is a regular context. The context for a function's
    /// local assignment is also regular.
    Regular,
    /// Context for temporary assignments.
    ///
    /// A volatile context is used for holding temporary variables when
    /// executing a built-in or function.
    Volatile,
}

/// Variable context.
///
/// Bindings made in the context are not stored here but in the per-name
/// stacks of the [`VariableSet`]; the context only owns its type and its
/// positional parameters.
#[derive(Clone, Debug, Eq, PartialEq)]
pub struct Context {
    /// Context type.
    pub context_type: ContextType,
    /// Positional parameters.
    ///
    /// This variable is very special: its value is always an `Array`, and it
    /// is never exported nor read-only.
    pub positional_params: Variable,
}

impl Context {
    /// Creates a context of the given type with empty positional parameters.
    pub fn new(context_type: ContextType) -> (r: Context)
        ensures
            r.context_type == context_type,
            fresh_context(r),
    {
        Context {
            context_type,
            positional_params: Variable {
                value: Value::Array(Vec::new()),
                last_assigned_location: None,
                is_exported: false,
                read_only_location: None,
            },
        }
    }
}

/// Whether a context carries the positional parameters a fresh context starts
/// with: an empty, unexported, writable array.
pub open spec fn fresh_context(c: Context) -> bool {
    &&& c.positional_params.value matches Value::Array(a) && a@.len() == 0
    &&& c.positional_params.last_assigned_location is None
    &&& !c.positional_params.is_exported
    &&& c.positional_params.read_only_location is None
}

/// The per-name stack of bindings, under the name it belongs to.
#[derive(Clone, Debug, Eq, PartialEq)]
pub struct NameStack {
    /// The variable name.
    pub name: String,
    /// Bindings for the name, sorted by ascending context index.
    pub stack: Vec<VariableInContext>,
}

/// Choice of a context to which a variable is assigned.
#[derive(Clone, Copy, Debug, Eq, PartialEq, Structural)]
pub enum Scope {
    /// Assigns to as low a context as possible.
    ///
    /// If there is an existing binding in a regular context, it is
    /// overwritten; existing volatile bindings above it are removed to make
    /// the target binding visible. If there is no binding to overwrite, the
    /// assignment adds a new binding to the base context.
    Global,
    /// Assigns to the topmost regular context.
    ///
    /// Existing bindings above the topmost regular context are removed.
    Local,
    /// Assigns to the topmost volatile context.
    ///
    /// This kind of assignment requires the topmost context to be volatile.
    Volatile,
}

/// Error that occurs when assigning to an existing read-only variable.
#[derive(Clone, Debug, Eq, PartialEq)]
pub struct ReadOnlyError {
    /// Variable name.
    pub name: String,
    /// Location where the existing variable was made read-only.
    pub read_only_location: Location,
    /// New variable that was tried to assign.
    pub new_value: Variable,
}

impl ReadOnlyError {
    /// A message describing this error.
    pub fn message(&self) -> (r: String)
        ensures
            r@ == seq!['v', 'a', 'r', 'i', 'a', 'b', 'l', 'e', ' ', '`'] + self.name@ + seq![
                '`',
                ' ',
                'i',
                's',
                ' ',
                'r',
                'e',
                'a',
                'd',
                '-',
                'o',
                'n',
                'l',
                'y',
            ],
    {
        let mut s = String::new();
        s.append("variable `");
        s.append(self.name.as_str());
        s.append("` is read-only");
        proof {
            reveal_strlit("variable `");
            reveal_strlit("` is read-only");
            assert(s@ =~= seq!['v', 'a', 'r', 'i', 'a', 'b', 'l', 'e', ' ', '`'] + self.name@
                + seq!['`', ' ', 'i', 's', ' ', 'r', 'e', 'a', 'd', '-', 'o', 'n', 'l', 'y']);
        }
        s
    }
}

/// Collection of variables.
///
/// See the [module documentation](self) for details.
#[derive(Clone, Debug, Eq, PartialEq)]
pub struct VariableSet {
    /// The per-name binding stacks.
    all_variables: Vec<NameStack>,
    /// Stack of contexts. Never empty: the base context is always the first
    /// item.
    contexts: Vec<Context>,
}

/// The stack of bindings for a name in a sequence of entries: the stack of
/// the first entry carrying the name, or the empty sequence.
pub open spec fn stack_in(entries: Seq<NameStack>, name: Seq<char>) -> Seq<VariableInContext>
    decreases entries.len(),
{
    if entries.len() == 0 {
        Seq::empty()
    } else if entries[0].name@ == name {
        entries[0].stack@
    } else {
        stack_in(entries.drop_first(), name)
    }
}

/// Well-formedness of one per-name stack: context indices are strictly
/// increasing and within the context stack.
pub open spec fn stack_wf(st: Seq<VariableInContext>, n_contexts: int) -> bool {
    &&& forall|i: int| 0 <= i < st.len() ==> (#[trigger] st[i].context_index) < n_contexts
    &&& forall|i: int, j: int|
        0 <= i < j < st.len() ==> (#[trigger] st[i].context_index) < (#[trigger] st[j].context_index)
}

impl VariableSet {
    /// The per-name entries, for specification purposes.
    pub closed spec fn entries(self) -> Seq<NameStack> {
        self.all_variables@
    }

    /// The context stack, for specification purposes.
    pub closed spec fn ctxs(self) -> Seq<Context> {
        self.contexts@
    }

    /// The stack of bindings for a name, sorted by ascending context index;
    /// the last element is the visible binding.
    pub open spec fn stack_of(self, name: Seq<char>) -> Seq<VariableInContext> {
        stack_in(self.entries(), name)
    }

    /// The visible binding for a name, if any.
    pub open spec fn lookup(self, name: Seq<char>) -> Option<Variable> {
        if self.stack_of(name).len() == 0 {
            None
        } else {
            Some(self.stack_of(name).last().variable)
        }
    }

    /// Well-formedness: at least the base context exists and is regular, the
    /// per-name entries have distinct names, and every stack is sorted by
    /// context index with all indices in range.
    pub closed spec fn wf(self) -> bool {
        &&& self.contexts@.len() >= 1
        &&& self.contexts@[0].context_type == ContextType::Regular
        &&& forall|i: int, j: int|
            0 <= i < j < self.all_variables@.len() ==> (#[trigger] self.all_variables@[i].name@) != (
            #[trigger] self.all_variables@[j].name@)
        &&& forall|i: int|
            0 <= i < self.all_variables@.len() ==> stack_wf(
                #[trigger] self.all_variables@[i].stack@,
                self.contexts@.len() as int,
            )
    }
}

/// The longest prefix of a sorted binding stack whose context indices do not
/// exceed `target`.
pub open spec fn truncated(st: Seq<VariableInContext>, target: int) -> Seq<VariableInContext>
    decreases st.len(),
{
    if st.len() == 0 {
        st
    } else if st.last().context_index > target {
        truncated(st.drop_last(), target)
    } else {
        st
    }
}

/// The index, within a binding stack, of the topmost binding owned by a
/// non-volatile context, or `-1` when there is none.
pub open spec fn top_non_volatile_binding(st: Seq<VariableInContext>, ctxs: Seq<Context>) -> int
    decreases st.len(),
{
    if st.len() == 0 {
        -1
    } else if ctxs[st.last().context_index as int].context_type != ContextType::Volatile {
        st.len() - 1
    } else {
        top_non_volatile_binding(st.drop_last(), ctxs)
    }
}

/// The target context index of a `Global` assignment: the owning context of
/// the topmost non-volatile binding, or the base context.
pub open spec fn global_target(st: Seq<VariableInContext>, ctxs: Seq<Context>) -> int {
    let i = top_non_volatile_binding(st, ctxs);
    if i == -1 {
        0
    } else {
        st[i].context_index as int
    }
}

/// The index of the topmost regular context, or `0` when no context is
/// regular (which well-formedness excludes).
pub open spec fn top_regular_ctx(ctxs: Seq<Context>) -> int
    decreases ctxs.len(),
{
    if ctxs.len() == 0 {
        0
    } else if ctxs.last().context_type == ContextType::Regular {
        ctxs.len() - 1
    } else {
        top_regular_ctx(ctxs.drop_last())
    }
}


/// What [`VariableSet::assign`] guarantees: how the binding stack for the
/// assigned name changes, when the error is returned, and that everything
/// else stays as it was.
pub open spec fn assign_post(
    pre: VariableSet,
    post: VariableSet,
    scope: Scope,
    name: Seq<char>,
    value: Variable,
    r: Result<Option<Variable>, ReadOnlyError>,
) -> bool {
    &&& post.wf()
    &&& post.ctxs() == pre.ctxs()
    &&& forall|m: Seq<char>| m != name ==> post.stack_of(m) == pre.stack_of(m)
    &&& ({
        let st = pre.stack_of(name);
        let t = pre.assign_target(scope, name);
        let st1 = truncated(st, t);
        match r {
            Err(e) => e.name@ == name && e.new_value == value && (if scope == Scope::Volatile
                && st.len() > 0 && st.last().variable.read_only_location is Some {
                post.stack_of(name) == st && e.read_only_location
                    == st.last().variable.read_only_location->0
            } else {
                st1.len() > 0 && st1.last().context_index == t
                    && st1.last().variable.read_only_location is Some && post.stack_of(name) == st1
                    && e.read_only_location == st1.last().variable.read_only_location->0
            }),
            Ok(prev) => {
                &&& !(scope == Scope::Volatile && st.len() > 0
                    && st.last().variable.read_only_location is Some)
                &&& match prev {
                    Some(p) => st1.len() > 0 && st1.last().context_index == t
                        && st1.last().variable.read_only_location is None && p
                        == st1.last().variable && post.stack_of(name) == st1.update(
                        st1.len() - 1,
                        (VariableInContext {
                            variable: (Variable {
                                is_exported: value.is_exported || p.is_exported,
                                ..value
                            }),
                            context_index: st1.last().context_index,
                        }),
                    ),
                    None => !(st1.len() > 0 && st1.last().context_index == t) && post.stack_of(
                        name,
                    ) == st1.push(
                        (VariableInContext { variable: value, context_index: t as usize }),
                    ),
                }
            },
        }
    })
}

impl VariableSet {
    /// The context index an assignment with the given scope targets.
    pub open spec fn assign_target(self, scope: Scope, name: Seq<char>) -> int {
        match scope {
            Scope::Global => global_target(self.stack_of(name), self.ctxs()),
            Scope::Local => top_regular_ctx(self.ctxs()),
            Scope::Volatile => self.ctxs().len() - 1,
        }
    }
}

proof fn lemma_stack_in_found(entries: Seq<NameStack>, name: Seq<char>, i: int)
    requires
        0 <= i < entries.len(),
        entries[i].name@ == name,
        forall|j: int| 0 <= j < i ==> (#[trigger] entries[j].name@) != name,
    ensures
        stack_in(entries, name) == entries[i].stack@,
    decreases entries.len(),
{
    if i > 0 {
        lemma_stack_in_found(entries.drop_first(), name, i - 1);
        assert(forall|j: int|
            0 <= j < entries.len() - 1 ==> #[trigger] entries.drop_first()[j] == entries[j + 1]);
    }
}

proof fn lemma_stack_in_absent(entries: Seq<NameStack>, name: Seq<char>)
    requires
        forall|j: int| 0 <= j < entries.len() ==> (#[trigger] entries[j].name@) != name,
    ensures
        stack_in(entries, name) == Seq::<VariableInContext>::empty(),
    decreases entries.len(),
{
    if entries.len() > 0 {
        lemma_stack_in_absent(entries.drop_first(), name);
        assert(forall|j: int|
            0 <= j < entries.len() - 1 ==> #[trigger] entries.drop_first()[j] == entries[j + 1]);
    }
}

proof fn lemma_stack_in_update(entries: Seq<NameStack>, i: int, ns: NameStack, m: Seq<char>)
    requires
        0 <= i < entries.len(),
        entries[i].name@ == ns.name@,
        forall|p: int, q: int|
            0 <= p < q < entries.len() ==> (#[trigger] entries[p].name@) != (
            #[trigger] entries[q].name@),
    ensures
        stack_in(entries.update(i, ns), m) == if m == ns.name@ {
            ns.stack@
        } else {
            stack_in(entries, m)
        },
    decreases entries.len(),
{
    let updated = entries.update(i, ns);
    if i == 0 {
        assert(updated[0] == ns);
        assert(updated.drop_first() =~= entries.drop_first());
        if m == ns.name@ {
        } else {
            if entries[0].name@ == m {
                assert(false);
            }
        }
    } else {
        assert(updated[0] == entries[0]);
        assert(updated.drop_first() =~= entries.drop_first().update(i - 1, ns));
        assert(forall|j: int|
            0 <= j < entries.len() - 1 ==> #[trigger] entries.drop_first()[j] == entries[j + 1]);
        lemma_stack_in_update(entries.drop_first(), i - 1, ns, m);
        if entries[0].name@ == m {
            assert(m != ns.name@);
        }
    }
}

proof fn lemma_stack_in_push(entries: Seq<NameStack>, ns: NameStack, m: Seq<char>)
    requires
        forall|j: int| 0 <= j < entries.len() ==> (#[trigger] entries[j].name@) != ns.name@,
    ensures
        stack_in(entries.push(ns), m) == if m == ns.name@ {
            ns.stack@
        } else {
            stack_in(entries, m)
        },
    decreases entries.len(),
{
    let pushed = entries.push(ns);
    if entries.len() == 0 {
        assert(pushed[0] == ns);
        assert(pushed.drop_first() =~= Seq::<NameStack>::empty());
        assert(stack_in(pushed.drop_first(), m) == Seq::<VariableInContext>::empty());
        if m == ns.name@ {
            assert(stack_in(pushed, m) == ns.stack@);
        } else {
            assert(stack_in(pushed, m) == stack_in(pushed.drop_first(), m));
            assert(stack_in(entries, m) == Seq::<VariableInContext>::empty());
        }
    } else {
        assert(pushed[0] == entries[0]);
        assert(entries[0].name@ != ns.name@);
        assert(pushed.drop_first() =~= entries.drop_first().push(ns));
        assert(forall|j: int|
            0 <= j < entries.len() - 1 ==> #[trigger] entries.drop_first()[j] == entries[j + 1]);
        lemma_stack_in_push(entries.drop_first(), ns, m);
        if pushed[0].name@ == m {
            assert(stack_in(pushed, m) == entries[0].stack@);
            assert(stack_in(entries, m) == entries[0].stack@);
            assert(m != ns.name@);
        } else {
            assert(stack_in(pushed, m) == stack_in(entries.drop_first().push(ns), m));
            assert(stack_in(entries, m) == stack_in(entries.drop_first(), m));
        }
    }
}

/// The truncation of a sorted stack is a prefix of it, every element kept has
/// a context index at most `target`, and it stays sorted.
proof fn lemma_truncated(st: Seq<VariableInContext>, target: int, n_contexts: int)
    requires
        stack_wf(st, n_contexts),
    ensures
        truncated(st, target).len() <= st.len(),
        forall|i: int|
            0 <= i < truncated(st, target).len() ==> #[trigger] truncated(st, target)[i] == st[i],
        truncated(st, target).len() > 0 ==> truncated(st, target).last().context_index <= target,
        stack_wf(truncated(st, target), n_contexts),
    decreases st.len(),
{
    if st.len() > 0 && st.last().context_index > target {
        assert(stack_wf(st.drop_last(), n_contexts));
        lemma_truncated(st.drop_last(), target, n_contexts);
    }
}

impl VariableSet {
    /// Creates an empty variable set: one regular base context and no
    /// bindings.
    pub fn new() -> (r: VariableSet)
        ensures
            r.wf(),
            r.ctxs().len() == 1,
            r.ctxs()[0].context_type == ContextType::Regular,
            fresh_context(r.ctxs()[0]),
            r.entries() == Seq::<NameStack>::empty(),
            forall|n: Seq<char>| r.stack_of(n) == Seq::<VariableInContext>::empty(),
    {
        let mut contexts: Vec<Context> = Vec::new();
        contexts.push(Context::new(ContextType::Regular));
        let r = VariableSet { all_variables: Vec::new(), contexts };
        proof {
            assert(forall|n: Seq<char>|
                #[trigger] r.stack_of(n) == Seq::<VariableInContext>::empty()) by {
                assert(r.entries().len() == 0);
            }
        }
        r
    }

    /// Looks up the index of the entry for a name.
    fn find_entry(&self, name: &str) -> (r: Option<usize>)
        ensures
            match r {
                Some(i) => i < self.entries().len() && self.entries()[i as int].name@ == name@
                    && self.stack_of(name@) == self.entries()[i as int].stack@,
                None => self.stack_of(name@) == Seq::<VariableInContext>::empty() && forall|j: int|
                    0 <= j < self.entries().len() ==> (#[trigger] self.entries()[j].name@) != name@,
            },
    {
        let mut i: usize = 0;
        let n = self.all_variables.len();
        while i < n
            invariant
                i <= n,
                n == self.entries().len(),
                forall|j: int| 0 <= j < i ==> (#[trigger] self.entries()[j].name@) != name@,
            decreases n - i,
        {
            if crate::strings::str_eq(self.all_variables[i].name.as_str(), name) {
                proof {
                    lemma_stack_in_found(self.entries(), name@, i as int);
                }
                return Some(i);
            }
            i = i + 1;
        }
        proof {
            lemma_stack_in_absent(self.entries(), name@);
        }
        None
    }

    /// Gets a reference to the variable with the specified name.
    ///
    /// Positional parameters cannot be retrieved with this function; see
    /// [`positional_params`](Self::positional_params).
    pub fn get(&self, name: &str) -> (r: Option<&Variable>)
        ensures
            match r {
                Some(v) => self.lookup(name@) == Some(*v),
                None => self.lookup(name@) is None,
            },
    {
        match self.find_entry(name) {
            None => None,
            Some(i) => {
                let entry = &self.all_variables[i];
                let n = entry.stack.len();
                if n == 0 {
                    None
                } else {
                    Some(&entry.stack[n - 1].variable)
                }
            },
        }
    }
}

impl Default for VariableSet {
    /// Creates an empty variable set, as [`VariableSet::new`] does.
    fn default() -> (r: VariableSet)
        ensures
            r.wf(),
            r.ctxs().len() == 1,
            r.ctxs()[0].context_type == ContextType::Regular,
            fresh_context(r.ctxs()[0]),
            forall|n: Seq<char>| r.stack_of(n) == Seq::<VariableInContext>::empty(),
    {
        VariableSet::new()
    }
}

impl VariableSet {
    /// The context index targeted by a `Global` assignment to the entry at
    /// index `i`.
    fn global_target_exec(&self, i: usize) -> (t: usize)
        requires
            self.wf(),
            i < self.entries().len(),
        ensures
            t as int == global_target(self.entries()[i as int].stack@, self.ctxs()),
            t < self.ctxs().len(),
    {
        let entry = &self.all_variables[i];
        let ghost st = entry.stack@;
        let ghost ctxs = self.ctxs();
        let mut j: usize = entry.stack.len();
        proof {
            assert(st.take(j as int) =~= st);
        }
        while j > 0
            invariant
                self.wf(),
                i < self.entries().len(),
                st == self.entries()[i as int].stack@,
                st == entry.stack@,
                ctxs == self.ctxs(),
                j <= st.len(),
                top_non_volatile_binding(st, ctxs) == top_non_volatile_binding(
                    st.take(j as int),
                    ctxs,
                ),
            decreases j,
        {
            let ci = entry.stack[j - 1].context_index;
            proof {
                assert(st[j - 1].context_index < ctxs.len());
                assert(st.take(j as int).last() == st[j - 1]);
            }
            if !matches!(self.contexts[ci].context_type, ContextType::Volatile) {
                proof {
                    assert(top_non_volatile_binding(st.take(j as int), ctxs) == j - 1);
                }
                return ci;
            }
            proof {
                assert(st.take(j as int).drop_last() =~= st.take(j - 1 as int));
            }
            j = j - 1;
        }
        proof {
            assert(st.take(0) =~= Seq::<VariableInContext>::empty());
            assert(top_non_volatile_binding(st, ctxs) == -1);
        }
        0
    }

    /// The index of the topmost regular context.
    fn top_regular_exec(&self) -> (t: usize)
        requires
            self.wf(),
        ensures
            t as int == top_regular_ctx(self.ctxs()),
            t < self.ctxs().len(),
    {
        let ghost ctxs = self.ctxs();
        let mut j: usize = self.contexts.len();
        proof {
            assert(ctxs.take(j as int) =~= ctxs);
        }
        while j > 0
            invariant
                self.wf(),
                ctxs == self.ctxs(),
                j <= ctxs.len(),
                top_regular_ctx(ctxs) == top_regular_ctx(ctxs.take(j as int)),
                forall|idx: int|
                    j <= idx < ctxs.len() ==> (#[trigger] ctxs[idx].context_type)
                        != ContextType::Regular,
            decreases j,
        {
            proof {
                assert(ctxs.take(j as int).last() == ctxs[j - 1]);
            }
            if matches!(self.contexts[j - 1].context_type, ContextType::Regular) {
                proof {
                    assert(top_regular_ctx(ctxs.take(j as int)) == j - 1);
                }
                return j - 1;
            }
            proof {
                assert(ctxs.take(j as int).drop_last() =~= ctxs.take(j - 1 as int));
            }
            j = j - 1;
        }
        proof {
            assert(ctxs[0].context_type == ContextType::Regular);
            assert(false);
        }
        0
    }

    /// Assigns a variable.
    ///
    /// If successful, the return value is the previous binding in the target
    /// context, if any. The assignment fails when it would overwrite an
    /// existing read-only binding, or, for the `Volatile` scope, when the
    /// visible binding is read-only; the error carries the name, the
    /// location that made the binding read-only, and the value that was to be
    /// assigned. Existing bindings in volatile contexts above the target are
    /// removed, and a replaced binding stays exported once exported.
    ///
    /// A `Volatile`-scope assignment demands that the topmost context be
    /// volatile. Positional parameters cannot be modified with this function;
    /// see [`positional_params_mut`](Self::positional_params_mut).
    pub fn assign(&mut self, scope: Scope, name: String, value: Variable) -> (r: Result<
        Option<Variable>,
        ReadOnlyError,
    >)
        requires
            old(self).wf(),
            scope == Scope::Volatile ==> old(self).ctxs().last().context_type
                == ContextType::Volatile,
        ensures
            assign_post(*old(self), *final (self), scope, name@, value, r),
            r matches Err(e) ==> e.name == name,
    {
        let idx0 = self.find_entry(name.as_str());

        // A volatile assignment cannot hide a read-only binding.
        if matches!(scope, Scope::Volatile) {
            if let Some(i) = idx0 {
                let entry = &self.all_variables[i];
                let sl = entry.stack.len();
                if sl > 0 {
                    if let Some(l) = &entry.stack[sl - 1].variable.read_only_location {
                        let read_only_location = l.clone();
                        return Err(ReadOnlyError { name, read_only_location, new_value: value });
                    }
                }
            }
        }

        // To which context should we assign?
        let target: usize = match scope {
            Scope::Global => match idx0 {
                Some(i) => self.global_target_exec(i),
                None => 0,
            },
            Scope::Local => self.top_regular_exec(),
            Scope::Volatile => self.contexts.len() - 1,
        };
        proof {
            assert(target as int == old(self).assign_target(scope, name@));
        }

        // Make sure the entry for the name exists.
        let ghost entries0 = self.entries();
        let i = match idx0 {
            Some(i) => i,
            None => {
                let fresh = NameStack { name: name.clone(), stack: Vec::new() };
                self.all_variables.push(fresh);
                self.all_variables.len() - 1
            },
        };
        let ghost entries1 = self.entries();
        proof {
            if idx0 is None {
                let ns = entries1.last();
                assert(entries1 =~= entries0.push(ns));
                assert(ns.name@ == name@);
                assert forall|m: Seq<char>| #[trigger]
                    stack_in(entries1, m) == stack_in(entries0, m) by {
                    lemma_stack_in_push(entries0, ns, m);
                    if m == ns.name@ {
                        lemma_stack_in_absent(entries0, m);
                    }
                }
            } else {
                assert(entries1 == entries0);
            }
            assert(forall|m: Seq<char>|
                #[trigger] stack_in(entries1, m) == stack_in(entries0, m));
            assert(entries1[i as int].name@ == name@);
            assert forall|p: int, q: int|
                0 <= p < q < entries1.len() implies (#[trigger] entries1[p].name@) != (
            #[trigger] entries1[q].name@) by {
                if q < entries0.len() {
                } else {
                    assert(entries1[q].name@ == name@);
                    assert(entries1[p] == entries0[p]);
                }
            }
            lemma_stack_in_found(entries1, name@, i as int);
        }

        // Work on the stack locally.
        let mut stack: Vec<VariableInContext> = Vec::new();
        core::mem::swap(&mut stack, &mut self.all_variables[i].stack);
        let ghost orig_stack = stack@;
        proof {
            assert(orig_stack == old(self).stack_of(name@));
            lemma_truncated(orig_stack, target as int, old(self).ctxs().len() as int);
        }

        // Remove volatile bindings above the target context.
        while stack.len() > 0 && stack[stack.len() - 1].context_index > target
            invariant
                stack_wf(stack@, old(self).ctxs().len() as int),
                truncated(orig_stack, target as int) == truncated(stack@, target as int),
            decreases stack.len(),
        {
            stack.pop();
        }
        let ghost st1 = truncated(orig_stack, target as int);
        proof {
            assert(truncated(stack@, target as int) == stack@);
            assert(stack@ == st1);
        }

        // Do the assignment.
        let sl = stack.len();
        let result: Result<Option<Variable>, ReadOnlyError>;
        if sl > 0 && stack[sl - 1].context_index == target {
            if let Some(l) = &stack[sl - 1].variable.read_only_location {
                let read_only_location = l.clone();
                core::mem::swap(&mut stack, &mut self.all_variables[i].stack);
                proof {
                    let ns = self.entries()[i as int];
                    assert(self.entries() =~= entries1.update(i as int, ns));
                    assert forall|m: Seq<char>| #[trigger]
                        self.stack_of(m) == if m == name@ {
                            st1
                        } else {
                            old(self).stack_of(m)
                        } by {
                        lemma_stack_in_update(entries1, i as int, ns, m);
                        assert(stack_in(entries1, m) == stack_in(entries0, m));
                    }
                }
                return Err(ReadOnlyError { name, read_only_location, new_value: value });
            }
            let old_vic = match stack.pop() {
                Some(v) => v,
                None => {
                    proof {
                        assert(false);
                    }
                    return Ok(None);
                },
            };
            let is_exported = value.is_exported || old_vic.variable.is_exported;
            let new_var = Variable { is_exported, ..value };
            stack.push(VariableInContext { variable: new_var, context_index: target });
            proof {
                assert(stack@ =~= st1.update(
                    st1.len() - 1,
                    (VariableInContext {
                        variable: (Variable {
                            is_exported: value.is_exported || old_vic.variable.is_exported,
                            ..value
                        }),
                        context_index: st1.last().context_index,
                    }),
                ));
            }
            result = Ok(Some(old_vic.variable));
        } else {
            stack.push(VariableInContext { variable: value, context_index: target });
            proof {
                if st1.len() > 0 {
                    assert(st1.last().context_index < target);
                }
            }
            result = Ok(None);
        }

        // Put the stack back.
        core::mem::swap(&mut stack, &mut self.all_variables[i].stack);
        proof {
            let ns = self.entries()[i as int];
            assert(self.entries() =~= entries1.update(i as int, ns));
            assert(stack_wf(ns.stack@, self.ctxs().len() as int));
            assert forall|m: Seq<char>| #[trigger]
                self.stack_of(m) == if m == name@ {
                    ns.stack@
                } else {
                    old(self).stack_of(m)
                } by {
                lemma_stack_in_update(entries1, i as int, ns, m);
                assert(stack_in(entries1, m) == stack_in(entries0, m));
            }
        }
        result
    }

    /// Pushes a new empty context of the given type.
    pub fn push_context(&mut self, context_type: ContextType)
        ensures
            old(self).wf() ==> final (self).wf(),
            final (self).ctxs().len() == old(self).ctxs().len() + 1,
            final (self).ctxs() == old(self).ctxs().push(final (self).ctxs().last()),
            final (self).ctxs().last().context_type == context_type,
            fresh_context(final (self).ctxs().last()),
            final (self).entries() == old(self).entries(),
            forall|m: Seq<char>| final (self).stack_of(m) == old(self).stack_of(m),
    {
        self.contexts.push(Context::new(context_type));
    }

    /// Pops the topmost context, removing every binding the popped context
    /// owned. The base context cannot be popped.
    pub fn pop_context(&mut self)
        requires
            old(self).wf(),
            old(self).ctxs().len() > 1,
        ensures
            final (self).wf(),
            final (self).ctxs() == old(self).ctxs().drop_last(),
            forall|m: Seq<char>|
                final (self).stack_of(m) == popped_stack(
                    old(self).stack_of(m),
                    old(self).ctxs().len() - 1,
                ),
    {
        self.contexts.pop();
        let ghost new_len = self.ctxs().len() as int;
        let n = self.all_variables.len();
        let mut i: usize = 0;
        while i < n
            invariant
                n == self.entries().len(),
                i <= n,
                self.ctxs() == old(self).ctxs().drop_last(),
                new_len == self.ctxs().len() as int,
                new_len == old(self).ctxs().len() - 1,
                old(self).entries().len() == n,
                forall|j: int|
                    0 <= j < n ==> (#[trigger] self.entries()[j].name@) == old(
                        self,
                    ).entries()[j].name@,
                forall|j: int|
                    0 <= j < i ==> (#[trigger] self.entries()[j].stack@) == popped_stack(
                        old(self).entries()[j].stack@,
                        new_len,
                    ),
                forall|j: int|
                    i <= j < n ==> (#[trigger] self.entries()[j].stack@) == old(
                        self,
                    ).entries()[j].stack@,
            decreases n - i,
        {
            let sl = self.all_variables[i].stack.len();
            let nctx = self.contexts.len();
            if sl > 0 && self.all_variables[i].stack[sl - 1].context_index >= nctx {
                let mut tmp: Vec<VariableInContext> = Vec::new();
                core::mem::swap(&mut tmp, &mut self.all_variables[i].stack);
                tmp.pop();
                core::mem::swap(&mut tmp, &mut self.all_variables[i].stack);
            }
            i = i + 1;
        }
        proof {
            assert forall|m: Seq<char>| #[trigger]
                final (self).stack_of(m) == popped_stack(
                    old(self).stack_of(m),
                    old(self).ctxs().len() - 1,
                ) by {
                lemma_stack_in_pointwise(old(self).entries(), self.entries(), m);
            }
            assert forall|j: int|
                0 <= j < final (self).entries().len() ==> stack_wf(
                    #[trigger] final (self).entries()[j].stack@,
                    final (self).ctxs().len() as int,
                ) by {
                if 0 <= j < final (self).entries().len() {
                    let st0 = old(self).entries()[j].stack@;
                    assert(stack_wf(st0, old(self).ctxs().len() as int));
                }
            }
        }
    }

    /// Returns a reference to the positional parameters of the topmost
    /// regular context. Volatile contexts do not own positional parameters
    /// and are skipped.
    pub fn positional_params(&self) -> (r: &Variable)
        requires
            self.wf(),
        ensures
            *r == self.ctxs()[top_regular_ctx(self.ctxs())].positional_params,
    {
        let k = self.top_regular_exec();
        &self.contexts[k].positional_params
    }

    /// Returns a mutable reference to the positional parameters of the
    /// topmost regular context.
    ///
    /// Positional parameters are kept as an anonymous array variable. It is
    /// the caller's responsibility to keep the variable an unexported,
    /// writable array; the set does not check these rules.
    pub fn positional_params_mut(&mut self) -> (r: &mut Variable)
        requires
            old(self).wf(),
        ensures
            *r == old(self).ctxs()[top_regular_ctx(old(self).ctxs())].positional_params,
            final (self).wf(),
            final (self).entries() == old(self).entries(),
            final (self).ctxs() == old(self).ctxs().update(
                top_regular_ctx(old(self).ctxs()),
                (Context {
                    context_type: old(self).ctxs()[top_regular_ctx(
                        old(self).ctxs(),
                    )].context_type,
                    positional_params: *final (r),
                }),
            ),
            forall|m: Seq<char>| final (self).stack_of(m) == old(self).stack_of(m),
    {
        let k = self.top_regular_exec();
        &mut self.contexts[k].positional_params
    }
}

/// A binding stack after its owning context stack lost its topmost context:
/// the last binding is dropped exactly when the popped context owned it.
pub open spec fn popped_stack(st: Seq<VariableInContext>, new_len: int) -> Seq<VariableInContext> {
    if st.len() > 0 && st.last().context_index >= new_len {
        st.drop_last()
    } else {
        st
    }
}

proof fn lemma_stack_in_pointwise(e1: Seq<NameStack>, e2: Seq<NameStack>, m: Seq<char>)
    requires
        e1.len() == e2.len(),
        forall|j: int| 0 <= j < e1.len() ==> (#[trigger] e1[j].name@) == e2[j].name@,
    ensures
        (exists|j: int|
            0 <= j < e1.len() && e1[j].name@ == m && stack_in(e1, m) == e1[j].stack@ && stack_in(
                e2,
                m,
            ) == e2[j].stack@) || (stack_in(e1, m) == Seq::<VariableInContext>::empty() && stack_in(
            e2,
            m,
        ) == Seq::<VariableInContext>::empty()),
    decreases e1.len(),
{
    if e1.len() == 0 {
    } else if e1[0].name@ == m {
        assert(e2[0].name@ == m);
        assert(stack_in(e1, m) == e1[0].stack@);
        assert(stack_in(e2, m) == e2[0].stack@);
    } else {
        assert(e2[0].name@ != m);
        assert(forall|j: int|
            0 <= j < e1.len() - 1 ==> #[trigger] e1.drop_first()[j] == e1[j + 1]);
        assert(forall|j: int|
            0 <= j < e2.len() - 1 ==> #[trigger] e2.drop_first()[j] == e2[j + 1]);
        lemma_stack_in_pointwise(e1.drop_first(), e2.drop_first(), m);
        if exists|j: int|
            0 <= j < e1.drop_first().len() && e1.drop_first()[j].name@ == m && stack_in(
                e1.drop_first(),
                m,
            ) == e1.drop_first()[j].stack@ && stack_in(e2.drop_first(), m)
                == e2.drop_first()[j].stack@ {
            let j = choose|j: int|
                0 <= j < e1.drop_first().len() && e1.drop_first()[j].name@ == m && stack_in(
                    e1.drop_first(),
                    m,
                ) == e1.drop_first()[j].stack@ && stack_in(e2.drop_first(), m)
                    == e2.drop_first()[j].stack@;
            assert(e1[j + 1].name@ == m && stack_in(e1, m) == e1[j + 1].stack@ && stack_in(e2, m)
                == e2[j + 1].stack@);
        }
    }
}

/// The environment string of a value: the scalar itself, or the array items
/// joined with colons.
pub open spec fn env_value_str(v: Value) -> Seq<char> {
    match v {
        Value::Scalar(s) => s@,
        Value::Array(vs) => crate::unparse::join_pieces(
            crate::unparse::views_of(vs@),
            seq![':'],
        ),
    }
}

/// The environment strings of a sequence of entries: one `name=value` string
/// for every entry whose visible binding is exported, except those containing
/// a NUL character.
pub open spec fn env_strings(entries: Seq<NameStack>) -> Seq<Seq<char>>
    decreases entries.len(),
{
    if entries.len() == 0 {
        Seq::empty()
    } else {
        let rest = env_strings(entries.drop_first());
        let e = entries[0];
        if e.stack@.len() > 0 && e.stack@.last().variable.is_exported {
            let s = e.name@ + seq!['='] + env_value_str(e.stack@.last().variable.value);
            if !s.contains('\0') {
                seq![s] + rest
            } else {
                rest
            }
        } else {
            rest
        }
    }
}

impl VariableSet {
    /// Materializes the environment for a child process: for every exported
    /// visible binding, `name`, `=`, and the scalar value or the array items
    /// joined by `:`. Entries containing a NUL character are dropped.
    ///
    /// The caller turns these into C strings; no string returned here
    /// contains a NUL.
    pub fn env_c_strings(&self) -> (r: Vec<String>)
        ensures
            crate::unparse::views_of(r@) == env_strings(self.entries()),
    {
        let mut r: Vec<String> = Vec::new();
        let n = self.all_variables.len();
        let mut i: usize = 0;
        proof {
            assert(self.entries().skip(0) =~= self.entries());
            assert(crate::unparse::views_of(r@) =~= Seq::<Seq<char>>::empty());
            assert(env_strings(self.entries()) =~= Seq::<Seq<char>>::empty() + env_strings(
                self.entries(),
            ));
        }
        while i < n
            invariant
                i <= n,
                n == self.entries().len(),
                env_strings(self.entries()) =~= crate::unparse::views_of(r@) + env_strings(
                    self.entries().skip(i as int),
                ),
            decreases n - i,
        {
            let ghost suffix = self.entries().skip(i as int);
            proof {
                assert(suffix[0] == self.entries()[i as int]);
                assert(suffix.drop_first() =~= self.entries().skip(i + 1 as int));
            }
            let entry = &self.all_variables[i];
            let sl = entry.stack.len();
            if sl > 0 && entry.stack[sl - 1].variable.is_exported {
                let mut s = String::new();
                s.append(entry.name.as_str());
                crate::syntax::push_char(&mut s, '=');
                match &entry.stack[sl - 1].variable.value {
                    Value::Scalar(v) => {
                        s.append(v.as_str());
                    },
                    Value::Array(vs) => {
                        let joined = crate::unparse::join_strings(vs, ":");
                        s.append(joined.as_str());
                        proof {
                            reveal_strlit(":");
                            assert(":"@ =~= seq![':']);
                        }
                    },
                }
                proof {
                    assert(s@ =~= entry.name@ + seq!['='] + env_value_str(
                        entry.stack@.last().variable.value,
                    ));
                }
                if !crate::strings::contains_nul(s.as_str()) {
                    let ghost prev = r@;
                    r.push(s);
                    proof {
                        assert(crate::unparse::views_of(r@) =~= crate::unparse::views_of(
                            prev,
                        ).push(r@.last()@));
                    }
                }
            }
            i = i + 1;
            proof {
                assert(env_strings(self.entries()) =~= crate::unparse::views_of(r@) + env_strings(
                    self.entries().skip(i as int),
                ));
            }
        }
        proof {
            assert(self.entries().skip(n as int) =~= Seq::<NameStack>::empty());
            assert(crate::unparse::views_of(r@) =~= crate::unparse::views_of(r@) + Seq::<
                Seq<char>,
            >::empty());
        }
        r
    }
}

/// The per-name entries carry distinct names, each entry's stack is exactly
/// the binding stack of its name, and every name with a binding has an
/// entry. This ties [`VariableSet::entries`] — which
/// [`VariableSet::env_c_strings`] is specified over — to the per-name
/// stacks the other operations are specified over.
pub proof fn lemma_entries_bridge(s: VariableSet)
    requires
        s.wf(),
    ensures
        forall|p: int, q: int|
            0 <= p < q < s.entries().len() ==> (#[trigger] s.entries()[p].name@) != (
            #[trigger] s.entries()[q].name@),
        forall|j: int|
            0 <= j < s.entries().len() ==> (#[trigger] s.entries()[j]).stack@ == s.stack_of(
                s.entries()[j].name@,
            ),
        forall|n: Seq<char>|
            s.stack_of(n).len() > 0 ==> exists|j: int|
                0 <= j < s.entries().len() && (#[trigger] s.entries()[j]).name@ == n,
{
    assert forall|j: int|
        0 <= j < s.entries().len() implies (#[trigger] s.entries()[j]).stack@ == s.stack_of(
        s.entries()[j].name@,
    ) by {
        assert(forall|k: int|
            0 <= k < j ==> (#[trigger] s.entries()[k].name@) != s.entries()[j].name@);
        lemma_stack_in_found(s.entries(), s.entries()[j].name@, j);
    }
    assert forall|n: Seq<char>| s.stack_of(n).len() > 0 implies exists|j: int|
        0 <= j < s.entries().len() && (#[trigger] s.entries()[j]).name@ == n by {
        lemma_stack_in_witness(s.entries(), n);
    }
}

/// A name with a non-empty stack occurs among the entries.
proof fn lemma_stack_in_witness(entries: Seq<NameStack>, name: Seq<char>)
    requires
        stack_in(entries, name).len() > 0,
    ensures
        exists|j: int| 0 <= j < entries.len() && (#[trigger] entries[j]).name@ == name,
    decreases entries.len(),
{
    if entries.len() > 0 && entries[0].name@ != name {
        lemma_stack_in_witness(entries.drop_first(), name);
        let j = choose|j: int|
            0 <= j < entries.drop_first().len() && (#[trigger] entries.drop_first()[j]).name@
                == name;
        assert(entries[j + 1].name@ == name);
    }
}

/// Variable visibility: the visible binding for a name is the one owned by
/// the highest context among the bindings not yet popped, and it is exactly
/// what [`VariableSet::get`] returns.
pub proof fn lemma_visibility(s: VariableSet, name: Seq<char>)
    requires
        s.wf(),
    ensures
        s.stack_of(name).len() == 0 ==> s.lookup(name) is None,
        s.stack_of(name).len() > 0 ==> s.lookup(name) == Some(
            s.stack_of(name).last().variable,
        ) && (forall|i: int|
            0 <= i < s.stack_of(name).len() - 1 ==> (#[trigger] s.stack_of(
                name,
            )[i].context_index) < s.stack_of(name).last().context_index),
{
    if s.stack_of(name).len() > 0 {
        lemma_stack_of_wf(s, name);
    }
}

/// Every per-name stack of a well-formed set is sorted with indices within
/// the context stack.
proof fn lemma_stack_of_wf(s: VariableSet, name: Seq<char>)
    requires
        s.wf(),
    ensures
        stack_wf(s.stack_of(name), s.ctxs().len() as int),
    decreases s.entries().len(),
{
    lemma_stack_in_wf(s.entries(), name, s.ctxs().len() as int);
}

proof fn lemma_stack_in_wf(entries: Seq<NameStack>, name: Seq<char>, n_contexts: int)
    requires
        forall|i: int| 0 <= i < entries.len() ==> stack_wf(#[trigger] entries[i].stack@, n_contexts),
    ensures
        stack_wf(stack_in(entries, name), n_contexts),
    decreases entries.len(),
{
    if entries.len() > 0 && entries[0].name@ != name {
        assert(forall|j: int|
            0 <= j < entries.len() - 1 ==> #[trigger] entries.drop_first()[j] == entries[j + 1]);
        lemma_stack_in_wf(entries.drop_first(), name, n_contexts);
    }
}

/// Read-only persistence: once the binding an assignment would overwrite has
/// a read-only location, the assignment returns the read-only error and the
/// binding survives, still read-only.
pub proof fn lemma_read_only_persistence(
    pre: VariableSet,
    post: VariableSet,
    scope: Scope,
    name: Seq<char>,
    value: Variable,
    r: Result<Option<Variable>, ReadOnlyError>,
)
    requires
        pre.wf(),
        assign_post(pre, post, scope, name, value, r),
        ({
            let st = pre.stack_of(name);
            let t = pre.assign_target(scope, name);
            let st1 = truncated(st, t);
            (scope == Scope::Volatile && st.len() > 0
                && st.last().variable.read_only_location is Some) || (st1.len() > 0
                && st1.last().context_index == t
                && st1.last().variable.read_only_location is Some)
        }),
    ensures
        r is Err,
        post.stack_of(name).len() > 0,
        post.stack_of(name).last().variable.read_only_location is Some,
{
}

/// Export inheritance: when a binding is replaced in place and the old
/// binding was exported, the new binding is exported too.
pub proof fn lemma_export_inheritance(
    pre: VariableSet,
    post: VariableSet,
    scope: Scope,
    name: Seq<char>,
    value: Variable,
    r: Result<Option<Variable>, ReadOnlyError>,
)
    requires
        pre.wf(),
        assign_post(pre, post, scope, name, value, r),
        r matches Ok(Some(p)) && p.is_exported,
    ensures
        post.stack_of(name).len() > 0,
        post.stack_of(name).last().variable.is_exported,
{
    let st = pre.stack_of(name);
    let t = pre.assign_target(scope, name);
    let st1 = truncated(st, t);
    assert(post.stack_of(name).last() == post.stack_of(name)[st1.len() - 1]);
}

} // verus!
