//! Pinned processes: commands that run bound to cores of their own, and the
//! cores that each of them asks for.

use vstd::prelude::*;
use crate::duplicate::Duplicate;
use crate::engine::{regex_is_match, regex_match, render_str, rendered, template_variables,
    undeclared_variables};
use crate::strmap::{has_key, keys_sorted, lemma_put_lookup, lemma_sorted_ext, lookup, put, Entries,
    StrMap};
use crate::text::{chars_of, decimal_value, parse_decimal};
use crate::datum::{Datum, Tree};

verus! {

/// The pattern of the variables that name a core: `core_` and a number.
pub const CORE_PATTERN: &'static str = "^core_\\d+$";

/// The name of the core that every pinned process asks for.
pub const FIRST_CORE: &'static str = "core_0";

/// A process to run pinned to cores.
#[derive(Debug, Clone)]
pub struct Pinned {
    /// The command line of the process.
    pub cmd: String,
    /// The environment the process is launched in.
    pub environ: Option<StrMap<String>>,
    /// The command that shuts the process down.
    pub down: Option<String>,
    /// Commands to run before the process is shut down.
    pub pre_down: Option<Vec<String>>,
    /// Commands to run once the process is launched.
    pub post_up: Option<Vec<String>>,
    /// The cores asked for, by name, once they have been worked out.
    pub cores: Option<StrMap<u64>>,
}

/// The mathematical form of a [`Pinned`].
pub struct PinnedView {
    pub cmd: Seq<char>,
    pub environ: Option<Entries<Seq<char>>>,
    pub down: Option<Seq<char>>,
    pub pre_down: Option<Seq<Seq<char>>>,
    pub post_up: Option<Seq<Seq<char>>>,
    pub cores: Option<Entries<u64>>,
}

impl DeepView for Pinned {
    type V = PinnedView;

    open spec fn deep_view(&self) -> PinnedView {
        PinnedView {
            cmd: self.cmd@,
            environ: self.environ.deep_view(),
            down: self.down.deep_view(),
            pre_down: self.pre_down.deep_view(),
            post_up: self.post_up.deep_view(),
            cores: self.cores.deep_view(),
        }
    }
}

impl View for Pinned {
    type V = PinnedView;

    open spec fn view(&self) -> PinnedView {
        self.deep_view()
    }
}

/// The index that a variable's name gives to a core, given whether the name
/// matches the pattern of such names: the number written after the first
/// five characters, where the name matches and the number fits 64 bits.
pub open spec fn slot_given(matched: Option<bool>, name: Seq<char>) -> Option<u64> {
    if matched == Some(true) && name.len() >= 5 {
        match decimal_value(name.skip(5)) {
            Some(n) => if n <= u64::MAX {
                Some(n as u64)
            } else {
                None
            },
            None => None,
        }
    } else {
        None
    }
}

/// The index that a variable's name gives to a core: that of [`slot_given`],
/// for what [`CORE_PATTERN`] says of the name.
pub open spec fn core_slot(name: Seq<char>) -> Option<u64> {
    slot_given(regex_is_match(CORE_PATTERN@, name), name)
}

/// The template `value` reads the variable `name`.
pub open spec fn references(value: Seq<char>, name: Seq<char>) -> bool {
    undeclared_variables(value) matches Some(names) && names.contains(name)
}

/// One of the first `upto` values of the environment reads the variable `name`.
pub open spec fn referenced_in(environ: Entries<Seq<char>>, upto: int, name: Seq<char>) -> bool {
    exists|k: int| 0 <= k < upto && k < environ.len() && references((#[trigger] environ[k]).1, name)
}

/// The index of the core that a process with this environment asks for under
/// `name`, if it asks for one: `core_0` always, with index 0; any other name
/// that a value of the environment reads and that names a core.
pub open spec fn requested_core(environ: Option<Entries<Seq<char>>>, name: Seq<char>) -> Option<
    u64,
> {
    if name == FIRST_CORE@ {
        Some(0u64)
    } else if environ matches Some(e) && referenced_in(e, e.len() as int, name) {
        core_slot(name)
    } else {
        None
    }
}

/// `cores` holds exactly the cores that a process with this environment asks
/// for. Its keys being sorted, there is one such map only.
pub open spec fn requests(environ: Option<Entries<Seq<char>>>, cores: Entries<u64>) -> bool {
    &&& keys_sorted(cores)
    &&& forall|name: Seq<char>| lookup(cores, name) == requested_core(environ, name)
    &&& forall|name: Seq<char>| has_key(cores, name) == requested_core(environ, name) is Some
}

/// The cores that a process with this environment asks for.
pub open spec fn requested(environ: Option<Entries<Seq<char>>>) -> Entries<u64> {
    choose|cores: Entries<u64>| requests(environ, cores)
}

/// There is one map only of the cores that a process asks for.
pub proof fn lemma_requests_unique(environ: Option<Entries<Seq<char>>>, cores: Entries<u64>)
    requires
        requests(environ, cores),
    ensures
        cores == requested(environ),
{
    let other = requested(environ);
    assert(requests(environ, other));
    lemma_sorted_ext(cores, other);
}

/// A process once its cores are worked out: those it held already, or those
/// that its environment asks for.
pub open spec fn resolved(p: PinnedView) -> PinnedView {
    PinnedView {
        cores: Some(
            match p.cores {
                Some(kept) => kept,
                None => requested(p.environ),
            },
        ),
        ..p
    }
}

/// The texts among the outcomes of rendering, in order: an outcome that is
/// nothing is a text that did not render.
pub open spec fn kept_texts(outcomes: Seq<Option<Seq<char>>>) -> Seq<Seq<char>>
    decreases outcomes.len(),
{
    if outcomes.len() == 0 {
        Seq::empty()
    } else {
        let before = kept_texts(outcomes.drop_last());
        match outcomes.last() {
            Some(text) => before.push(text),
            None => before,
        }
    }
}

/// What each command of a list renders to against `context`.
pub open spec fn outcomes_of(list: Seq<Seq<char>>, context: Tree) -> Seq<Option<Seq<char>>> {
    Seq::new(list.len(), |i: int| rendered(list[i], context))
}

/// What is left of a list of commands once each is rendered against `context`:
/// the rendered texts, in order, of those that render.
pub open spec fn rendered_list(list: Seq<Seq<char>>, context: Tree) -> Seq<Seq<char>> {
    kept_texts(outcomes_of(list, context))
}

/// The outcome of rendering a text, or the text itself where it did not
/// render.
pub open spec fn text_or(outcome: Option<Seq<char>>, text: Seq<char>) -> Seq<char> {
    match outcome {
        Some(out) => out,
        None => text,
    }
}

/// A text rendered against `context`, or the text itself where it does not
/// render.
pub open spec fn rendered_or_kept(text: Seq<char>, context: Tree) -> Seq<char> {
    text_or(rendered(text, context), text)
}

/// An optional list of commands, rendered as [`rendered_list`] says.
pub open spec fn rendered_hooks(list: Option<Seq<Seq<char>>>, context: Tree) -> Option<
    Seq<Seq<char>>,
> {
    match list {
        Some(l) => Some(rendered_list(l, context)),
        None => None,
    }
}

/// A process with its command and its hooks rendered against `context`. A hook
/// that does not render is dropped; a command that does not is kept as it is.
pub open spec fn expanded_pinned(p: PinnedView, context: Tree) -> PinnedView {
    PinnedView {
        cmd: rendered_or_kept(p.cmd, context),
        pre_down: rendered_hooks(p.pre_down, context),
        post_up: rendered_hooks(p.post_up, context),
        ..p
    }
}

/// The index that `name` gives to a core, given whether the name matches the
/// pattern of such names.
pub fn core_index_given(matched: Option<bool>, name: &str) -> (r: Option<u64>)
    ensures
        r == slot_given(matched, name@),
{
    match matched {
        Some(true) => {
            let chars = chars_of(name);
            if chars.len() >= 5 {
                parse_decimal(&chars, 5)
            } else {
                None
            }
        },
        _ => None,
    }
}

/// The index that `name` gives to a core, if it names one.
pub fn core_index(name: &str) -> (r: Option<u64>)
    ensures
        r == core_slot(name@),
{
    core_index_given(regex_match(CORE_PATTERN, name), name)
}

/// The texts among the outcomes of rendering, in order.
pub fn keep_rendered(outcomes: Vec<Option<String>>) -> (r: Vec<String>)
    ensures
        r.deep_view() == kept_texts(outcomes.deep_view()),
{
    let ghost all = outcomes.deep_view();
    let mut out: Vec<String> = Vec::new();
    let mut i: usize = 0;
    assert(all.take(0) =~= Seq::<Option<Seq<char>>>::empty());
    assert(out.deep_view() =~= Seq::<Seq<char>>::empty());
    while i < outcomes.len()
        invariant
            i <= outcomes.len(),
            all == outcomes.deep_view(),
            out.deep_view() == kept_texts(all.take(i as int)),
        decreases outcomes.len() - i,
    {
        let ghost before = out.deep_view();
        proof {
            let upto = all.take(i + 1);
            assert(upto.drop_last() =~= all.take(i as int));
            assert(upto.last() == outcomes@[i as int].deep_view());
        }
        match &outcomes[i] {
            Some(text) => {
                out.push(text.clone());
                assert(out.deep_view() =~= before.push(text@));
            },
            None => {},
        }
        i += 1;
    }
    assert(all.take(i as int) =~= all);
    out
}

/// The outcome of rendering `text`, or `text` itself where it did not render.
pub fn rendered_or(outcome: Option<String>, text: String) -> (r: String)
    ensures
        r@ == text_or(outcome.deep_view(), text@),
{
    match outcome {
        Some(out) => out,
        None => text,
    }
}

/// Renders each command of `list` against `context` and keeps those that
/// render.
pub fn render_list(list: &Vec<String>, context: &Datum) -> (r: Vec<String>)
    ensures
        r.deep_view() == rendered_list(list.deep_view(), context@),
{
    let mut outcomes: Vec<Option<String>> = Vec::new();
    let mut i: usize = 0;
    while i < list.len()
        invariant
            i <= list.len(),
            outcomes@.len() == i,
            forall|j: int|
                0 <= j < i ==> (#[trigger] outcomes@[j]).deep_view() == rendered(
                    list@[j]@,
                    context@,
                ),
        decreases list.len() - i,
    {
        outcomes.push(render_str(list[i].as_str(), context));
        i += 1;
    }
    assert(outcomes.deep_view() =~= outcomes_of(list.deep_view(), context@));
    keep_rendered(outcomes)
}

impl Pinned {
    /// A process with the given command, hooks and environment, whose cores
    /// have not been worked out yet.
    pub fn new(
        cmd: String,
        environ: Option<StrMap<String>>,
        down: Option<String>,
        pre_down: Option<Vec<String>>,
        post_up: Option<Vec<String>>,
    ) -> (r: Pinned)
        ensures
            r@ == (PinnedView {
                cmd: cmd@,
                environ: environ.deep_view(),
                down: down.deep_view(),
                pre_down: pre_down.deep_view(),
                post_up: post_up.deep_view(),
                cores: None,
            }),
    {
        Pinned { cmd, environ, down, pre_down, post_up, cores: None }
    }

    /// The cores that the process asks for, by name: worked out from the
    /// environment on the first call and kept; later calls return what was kept.
    pub fn cores(&mut self) -> (r: StrMap<u64>)
        ensures
            final(self)@ == resolved(old(self)@),
            Some(r.deep_view()) == final(self)@.cores,
            old(self)@.cores is None ==> requests(old(self)@.environ, r.deep_view()),
    {
        match &self.cores {
            Some(kept) => {
                return kept.duplicate();
            },
            None => {},
        }
        let found = requested_cores(&self.environ);
        let r = found.duplicate();
        proof {
            lemma_requests_unique(self@.environ, found.deep_view());
        }
        self.cores = Some(found);
        r
    }

    /// The number of cores that the process asks for. Works the cores out as
    /// [`Pinned::cores`] does, where that was not done before.
    pub fn n_cores(&mut self) -> (n: usize)
        ensures
            final(self)@ == resolved(old(self)@),
            old(self)@.cores is None ==> requests(old(self)@.environ, final(self)@.cores->0),
            n == final(self)@.cores->0.len(),
    {
        let cores = self.cores();
        cores.len()
    }

    /// Renders the command and the hooks of the process against `context`. A
    /// hook that does not render is dropped; a command that does not render is
    /// left as it is.
    pub fn expand(&mut self, context: &Datum)
        ensures
            final(self)@ == expanded_pinned(old(self)@, context@),
    {
        let pre_down = match &self.pre_down {
            Some(list) => Some(render_list(list, context)),
            None => None,
        };
        self.pre_down = pre_down;
        let mut cmd = String::new();
        core::mem::swap(&mut self.cmd, &mut cmd);
        self.cmd = rendered_or(render_str(cmd.as_str(), context), cmd);
        let post_up = match &self.post_up {
            Some(list) => Some(render_list(list, context)),
            None => None,
        };
        self.post_up = post_up;
    }
}

/// What the cores hold once the first `upto` values of the environment, and
/// the names `extra` besides, have been looked through.
pub open spec fn partial_core(
    environ: Entries<Seq<char>>,
    upto: int,
    extra: Set<Seq<char>>,
    name: Seq<char>,
) -> Option<u64> {
    if name == FIRST_CORE@ {
        Some(0u64)
    } else if referenced_in(environ, upto, name) || extra.contains(name) {
        core_slot(name)
    } else {
        None
    }
}

/// `core_0`, where it names a core at all, names the core of index 0.
pub proof fn lemma_first_core_slot()
    ensures
        core_slot(FIRST_CORE@) is Some ==> core_slot(FIRST_CORE@) == Some(0u64),
{
    reveal_strlit("core_0");
    let digits = FIRST_CORE@.skip(5);
    assert(digits =~= seq!['0']);
    assert(digits.last() == '0');
}

/// The cores that a process with the environment `environ` asks for.
#[verifier::rlimit(30)]
pub fn requested_cores(environ: &Option<StrMap<String>>) -> (r: StrMap<u64>)
    ensures
        requests(environ.deep_view(), r.deep_view()),
{
    let mut out: StrMap<u64> = StrMap::new();
    out.insert(String::from_str(FIRST_CORE), 0);
    proof {
        lemma_first_core_slot();
        assert(keys_sorted(Seq::<(Seq<char>, u64)>::empty()));
        assert forall|name: Seq<char>|
            lookup(out@, name) == partial_core(Seq::empty(), 0, Set::empty(), name) && has_key(
                out@,
                name,
            ) == partial_core(Seq::empty(), 0, Set::empty(), name) is Some by {
            lemma_put_lookup(Seq::<(Seq<char>, u64)>::empty(), FIRST_CORE@, 0u64, name);
        }
    }
    match environ {
        None => {
            assert(out.deep_view() =~= out@);
        },
        Some(env) => {
            let n = env.len();
            let ghost e = env.deep_view();
            let mut i: usize = 0;
            assert forall|name: Seq<char>|
                partial_core(e, 0, Set::empty(), name) == partial_core(
                    Seq::empty(),
                    0,
                    Set::empty(),
                    name,
                ) by {}
            while i < n
                invariant
                    i <= n,
                    n == env@.len(),
                    e == env.deep_view(),
                    keys_sorted(out@),
                    forall|name: Seq<char>|
                        lookup(out@, name) == partial_core(e, i as int, Set::empty(), name),
                    forall|name: Seq<char>|
                        has_key(out@, name) == partial_core(e, i as int, Set::empty(), name) is Some,
                decreases n - i,
            {
                let value = env.value_at(i);
                assert(e[i as int].1 == value@);
                match template_variables(value.as_str()) {
                    None => {},
                    Some(names) => {
                        let ghost all = names.deep_view();
                        let mut j: usize = 0;
                        assert(all.take(0).to_set() =~= Set::<Seq<char>>::empty());
                        while j < names.len()
                            invariant
                                j <= names.len(),
                                all == names.deep_view(),
                                keys_sorted(out@),
                                forall|name: Seq<char>|
                                    lookup(out@, name) == partial_core(
                                        e,
                                        i as int,
                                        all.take(j as int).to_set(),
                                        name,
                                    ),
                                forall|name: Seq<char>|
                                    has_key(out@, name) == partial_core(
                                        e,
                                        i as int,
                                        all.take(j as int).to_set(),
                                        name,
                                    ) is Some,
                            decreases names.len() - j,
                        {
                            let name = &names[j];
                            let ghost seen = all.take(j as int).to_set();
                            let ghost seen_next = all.take(j + 1).to_set();
                            let ghost before = out@;
                            assert(all[j as int] == name@);
                            assert(seen_next =~= seen.insert(name@)) by {
                                assert(all.take(j + 1) =~= all.take(j as int).push(name@));
                                all.take(j as int).lemma_push_to_set_commute(name@);
                            }
                            match core_index(name.as_str()) {
                                Some(index) => {
                                    out.insert(name.clone(), index);
                                    proof {
                                        lemma_first_core_slot();
                                        assert forall|q: Seq<char>|
                                            lookup(out@, q) == partial_core(
                                                e,
                                                i as int,
                                                seen_next,
                                                q,
                                            ) && has_key(out@, q) == partial_core(
                                                e,
                                                i as int,
                                                seen_next,
                                                q,
                                            ) is Some by {
                                            lemma_put_lookup(before, name@, index, q);
                                        }
                                    }
                                },
                                None => {
                                    assert forall|q: Seq<char>|
                                        partial_core(e, i as int, seen_next, q) == partial_core(
                                            e,
                                            i as int,
                                            seen,
                                            q,
                                        ) by {}
                                },
                            }
                            j += 1;
                        }
                        assert(all.take(j as int) =~= all);
                    },
                }
                proof {
                    // the names of this value now count as seen through the environment
                    let extra = match undeclared_variables(value@) {
                        Some(names) => names,
                        None => Set::empty(),
                    };
                    assert forall|name: Seq<char>|
                        partial_core(e, i + 1, Set::empty(), name) == partial_core(
                            e,
                            i as int,
                            extra,
                            name,
                        ) by {
                        if referenced_in(e, i + 1, name) {
                            let k = choose|k: int|
                                0 <= k < i + 1 && k < e.len() && references(
                                    (#[trigger] e[k]).1,
                                    name,
                                );
                            if k < i {
                                assert(referenced_in(e, i as int, name));
                            }
                        }
                        if referenced_in(e, i as int, name) {
                            let k = choose|k: int|
                                0 <= k < i && k < e.len() && references((#[trigger] e[k]).1, name);
                            assert(referenced_in(e, i + 1, name));
                        }
                        if extra.contains(name) {
                            assert(references(e[i as int].1, name));
                            assert(referenced_in(e, i + 1, name));
                        }
                    }
                }
                i += 1;
            }
            assert(out.deep_view() =~= out@);
        },
    }
    out
}

impl Duplicate for Pinned {
    fn duplicate(&self) -> (r: Self) {
        Pinned {
            cmd: self.cmd.clone(),
            environ: self.environ.duplicate(),
            down: self.down.duplicate(),
            pre_down: self.pre_down.duplicate(),
            post_up: self.post_up.duplicate(),
            cores: self.cores.duplicate(),
        }
    }
}

} // verus!
