//! The record of how far a package build has come, and when it must be
//! redone.
//!
//! A build goes through the stages download, prepare, build and package.
//! The record keeps the last stage completed together with the inputs that
//! the stages used: a stage whose inputs changed since, and every stage after
//! it, must run again.
use vstd::prelude::*;
use vstd::string::StringExecFns;
use crate::pkgbuild::strings_view;

verus! {

/// The last stage of a build that completed.
#[derive(Clone, Copy, Debug, PartialEq, Eq, Structural)]
pub enum StateStep {
    Initial,
    Downloaded,
    Prepared,
    Built,
    Packaged,
}

impl StateStep {
    /// The position of the stage in the order of a build.
    pub open spec fn rank(self) -> nat {
        match self {
            StateStep::Initial => 0,
            StateStep::Downloaded => 1,
            StateStep::Prepared => 2,
            StateStep::Built => 3,
            StateStep::Packaged => 4,
        }
    }

    /// The position of the stage in the order of a build.
    pub fn order(&self) -> (r: u8)
        ensures
            r == self.rank(),
    {
        match self {
            StateStep::Initial => 0,
            StateStep::Downloaded => 1,
            StateStep::Prepared => 2,
            StateStep::Built => 3,
            StateStep::Packaged => 4,
        }
    }

    /// Whether this stage comes before `other`.
    pub fn precedes(&self, other: &StateStep) -> (r: bool)
        ensures
            r == (self.rank() < other.rank()),
    {
        self.order() < other.order()
    }

    /// The stage that follows this one, if any.
    pub open spec fn successor(self) -> Option<StateStep> {
        match self {
            StateStep::Initial => Some(StateStep::Downloaded),
            StateStep::Downloaded => Some(StateStep::Prepared),
            StateStep::Prepared => Some(StateStep::Built),
            StateStep::Built => Some(StateStep::Packaged),
            StateStep::Packaged => None,
        }
    }

    /// The next stage to run after this one has completed; `None` once the
    /// package is made.
    pub fn next_stage(&self) -> (r: Option<StateStep>)
        ensures
            r == self.successor(),
            r matches Some(n) ==> n.rank() == self.rank() + 1,
            r is None <==> *self == StateStep::Packaged,
    {
        match self {
            StateStep::Initial => Some(StateStep::Downloaded),
            StateStep::Downloaded => Some(StateStep::Prepared),
            StateStep::Prepared => Some(StateStep::Built),
            StateStep::Built => Some(StateStep::Packaged),
            StateStep::Packaged => None,
        }
    }
}

impl Default for StateStep {
    fn default() -> (r: StateStep)
        ensures
            r == StateStep::Initial,
    {
        StateStep::Initial
    }
}

/// The record of a build.
#[derive(Debug)]
pub struct State {
    pub step: StateStep,
    pub makedepends: Vec<String>,
    pub sources: Vec<String>,
    pub prepare_script: u64,
    pub build_script: u64,
    pub package_script: u64,
}

/// The mathematical counterpart of [`State`].
pub struct StateV {
    pub step: StateStep,
    pub makedepends: Seq<Seq<char>>,
    pub sources: Seq<Seq<char>>,
    pub prepare_script: u64,
    pub build_script: u64,
    pub package_script: u64,
}

impl View for State {
    type V = StateV;

    open spec fn view(&self) -> StateV {
        StateV {
            step: self.step,
            makedepends: strings_view(self.makedepends@),
            sources: strings_view(self.sources@),
            prepare_script: self.prepare_script,
            build_script: self.build_script,
            package_script: self.package_script,
        }
    }
}

/// What the stages of a build take from the manifest now: its build
/// dependencies and sources, and a hash of each script.
pub struct Inputs {
    pub makedepends: Seq<Seq<char>>,
    pub sources: Seq<Seq<char>>,
    pub prepare_script: u64,
    pub build_script: u64,
    pub package_script: u64,
}

/// The record `st` with every stage whose inputs changed undone, together
/// with the stages after it, and with the changed inputs recorded. The checks
/// run from the last stage to the first: build dependencies (which the build
/// stage needs), the package script, the build script, the prepare script,
/// and the sources.
pub open spec fn refreshed(st: StateV, now: Inputs) -> StateV {
    let s1 = if st.step.rank() >= 3 && st.makedepends != now.makedepends {
        StateV { step: StateStep::Downloaded, makedepends: now.makedepends, ..st }
    } else {
        st
    };
    let s2 = if s1.step.rank() >= 4 && s1.package_script != now.package_script {
        StateV { step: StateStep::Built, package_script: now.package_script, ..s1 }
    } else {
        s1
    };
    let s3 = if s2.step.rank() >= 3 && s2.build_script != now.build_script {
        StateV { step: StateStep::Prepared, build_script: now.build_script, ..s2 }
    } else {
        s2
    };
    let s4 = if s3.step.rank() >= 2 && s3.prepare_script != now.prepare_script {
        StateV { step: StateStep::Downloaded, prepare_script: now.prepare_script, ..s3 }
    } else {
        s3
    };
    if s4.step.rank() >= 1 && s4.sources != now.sources {
        StateV { step: StateStep::Initial, sources: now.sources, ..s4 }
    } else {
        s4
    }
}

/// Whether `a` and `b` hold the same texts.
fn same_strings(a: &Vec<String>, b: &Vec<String>) -> (r: bool)
    ensures
        r == (strings_view(a@) == strings_view(b@)),
{
    if a.len() != b.len() {
        return false;
    }
    let mut i: usize = 0;
    while i < a.len()
        invariant
            a@.len() == b@.len(),
            0 <= i <= a@.len(),
            forall|j: int| 0 <= j < i ==> a@[j]@ == b@[j]@,
        decreases a@.len() - i,
    {
        if a[i] != b[i] {
            assert(strings_view(a@)[i as int] != strings_view(b@)[i as int]);
            return false;
        }
        i = i + 1;
    }
    assert(strings_view(a@) =~= strings_view(b@));
    true
}

/// A copy of `v`.
fn copy_strings(v: &Vec<String>) -> (r: Vec<String>)
    ensures
        strings_view(r@) == strings_view(v@),
{
    let mut out: Vec<String> = Vec::new();
    let mut i: usize = 0;
    while i < v.len()
        invariant
            0 <= i <= v@.len(),
            out@.len() == i,
            forall|j: int| 0 <= j < i ==> out@[j]@ == v@[j]@,
        decreases v@.len() - i,
    {
        out.push(v[i].clone());
        i = i + 1;
    }
    assert(strings_view(out@) =~= strings_view(v@));
    out
}

impl Default for State {
    fn default() -> (r: State)
        ensures
            r.step == StateStep::Initial,
            r.makedepends@.len() == 0,
            r.sources@.len() == 0,
            r.prepare_script == 0,
            r.build_script == 0,
            r.package_script == 0,
    {
        State {
            step: StateStep::Initial,
            makedepends: Vec::new(),
            sources: Vec::new(),
            prepare_script: 0,
            build_script: 0,
            package_script: 0,
        }
    }
}

impl State {
    /// Undoes every stage whose inputs changed since it ran, and the stages
    /// after it, recording the changed inputs.
    pub fn refresh(
        &mut self,
        makedepends: &Vec<String>,
        sources: &Vec<String>,
        prepare_script: u64,
        build_script: u64,
        package_script: u64,
    )
        ensures
            final(self)@ == refreshed(
                old(self)@,
                Inputs {
                    makedepends: strings_view(makedepends@),
                    sources: strings_view(sources@),
                    prepare_script,
                    build_script,
                    package_script,
                },
            ),
    {
        if !self.step.precedes(&StateStep::Built) && !same_strings(&self.makedepends, makedepends) {
            self.step = StateStep::Downloaded;
            self.makedepends = copy_strings(makedepends);
        }
        if !self.step.precedes(&StateStep::Packaged) && self.package_script != package_script {
            self.step = StateStep::Built;
            self.package_script = package_script;
        }
        if !self.step.precedes(&StateStep::Built) && self.build_script != build_script {
            self.step = StateStep::Prepared;
            self.build_script = build_script;
        }
        if !self.step.precedes(&StateStep::Prepared) && self.prepare_script != prepare_script {
            self.step = StateStep::Downloaded;
            self.prepare_script = prepare_script;
        }
        if !self.step.precedes(&StateStep::Downloaded) && !same_strings(&self.sources, sources) {
            self.step = StateStep::Initial;
            self.sources = copy_strings(sources);
        }
    }
}

/// Refreshing a record never moves it to a later stage.
pub proof fn lemma_refresh_never_advances(st: StateV, now: Inputs)
    ensures
        refreshed(st, now).step.rank() <= st.step.rank(),
{
}

/// After a refresh, every stage that the record claims done ran on the
/// current inputs: the sources once anything is downloaded, the prepare
/// script once prepared, the build script and build dependencies once built,
/// the package script once packaged.
pub proof fn lemma_refresh_consistent(st: StateV, now: Inputs)
    ensures
        ({
            let r = refreshed(st, now);
            &&& r.step.rank() >= 1 ==> r.sources == now.sources
            &&& r.step.rank() >= 2 ==> r.prepare_script == now.prepare_script
            &&& r.step.rank() >= 3 ==> r.build_script == now.build_script && r.makedepends
                == now.makedepends
            &&& r.step.rank() >= 4 ==> r.package_script == now.package_script
        }),
{
}

/// Refreshing twice against the same inputs is refreshing once.
pub proof fn lemma_refresh_idempotent(st: StateV, now: Inputs)
    ensures
        refreshed(refreshed(st, now), now) == refreshed(st, now),
{
    lemma_refresh_consistent(st, now);
}

/// The build dependencies among `deps` that are not present, in order;
/// `present[i]` tells whether `deps[i]` was found.
pub open spec fn missing_spec(deps: Seq<Seq<char>>, present: Seq<bool>) -> Seq<Seq<char>>
    decreases deps.len(),
{
    if deps.len() == 0 {
        seq![]
    } else {
        let rest = missing_spec(deps.drop_last(), present);
        if present[deps.len() - 1] {
            rest
        } else {
            rest.push(deps.last())
        }
    }
}

/// The build dependencies among `deps` that are not present, in order.
pub fn missing_dependencies(deps: &Vec<String>, present: &Vec<bool>) -> (r: Vec<String>)
    requires
        present@.len() == deps@.len(),
    ensures
        strings_view(r@) == missing_spec(strings_view(deps@), present@),
{
    let mut out: Vec<String> = Vec::new();
    let mut i: usize = 0;
    while i < deps.len()
        invariant
            present@.len() == deps@.len(),
            0 <= i <= deps@.len(),
            strings_view(out@) == missing_spec(strings_view(deps@.take(i as int)), present@),
        decreases deps@.len() - i,
    {
        let ghost before = out@;
        assert(strings_view(deps@.take(i + 1)).drop_last() =~= strings_view(deps@.take(i as int)));
        if !present[i] {
            out.push(deps[i].clone());
            assert(strings_view(out@) =~= strings_view(before).push(deps@[i as int]@));
        }
        i = i + 1;
    }
    assert(deps@.take(deps@.len() as int) =~= deps@);
    out
}

/// `names` separated by a comma and a space.
pub open spec fn joined(names: Seq<Seq<char>>) -> Seq<char>
    decreases names.len(),
{
    if names.len() == 0 {
        seq![]
    } else if names.len() == 1 {
        names[0]
    } else {
        joined(names.drop_last()) + ", "@ + names.last()
    }
}

/// The message that reports the build dependencies `missing`.
pub fn missing_message(missing: &Vec<String>) -> (r: String)
    ensures
        r@ == "Missing dependencies: "@ + joined(strings_view(missing@)),
{
    let mut msg = String::from_str("Missing dependencies: ");
    let ghost head = msg@;
    let mut i: usize = 0;
    while i < missing.len()
        invariant
            0 <= i <= missing@.len(),
            head == "Missing dependencies: "@,
            msg@ == head + joined(strings_view(missing@.take(i as int))),
        decreases missing@.len() - i,
    {
        let ghost before = msg@;
        if i != 0 {
            msg.append(", ");
        }
        msg.append(missing[i].as_str());
        proof {
            let names = strings_view(missing@.take(i + 1));
            assert(names.drop_last() =~= strings_view(missing@.take(i as int)));
            assert(names.last() == missing@[i as int]@);
            if i == 0 {
                assert(joined(strings_view(missing@.take(0))) =~= Seq::<char>::empty());
                assert(msg@ =~= head + joined(names));
            } else {
                assert(msg@ =~= head + joined(names));
            }
        }
        i = i + 1;
    }
    assert(missing@.take(missing@.len() as int) =~= missing@);
    msg
}

/// A stage whose input changed is undone, together with every stage after
/// it: changed sources undo the download, a changed prepare script the
/// preparation, changed build dependencies the preparation too (the build
/// stage needs them, and they are set up before it), a changed build script
/// the build, and a changed package script the packaging.
pub proof fn lemma_refresh_undoes_changed(st: StateV, now: Inputs)
    ensures
        ({
            let r = refreshed(st, now).step.rank();
            &&& st.step.rank() >= 1 && st.sources != now.sources ==> r < 1
            &&& st.step.rank() >= 2 && st.prepare_script != now.prepare_script ==> r < 2
            &&& st.step.rank() >= 3 && st.build_script != now.build_script ==> r < 3
            &&& st.step.rank() >= 3 && st.makedepends != now.makedepends ==> r < 2
            &&& st.step.rank() >= 4 && st.package_script != now.package_script ==> r < 4
        }),
{
}

/// A refresh undoes no stage whose inputs, and those of every stage before
/// it, are unchanged (the build dependencies count as an input of the
/// preparation): such a stage stays done if it was.
pub proof fn lemma_refresh_keeps_unchanged(st: StateV, now: Inputs)
    ensures
        ({
            let r = refreshed(st, now).step.rank();
            let k = st.step.rank();
            &&& st.sources == now.sources ==> r >= if k < 1 { k } else { 1 }
            &&& st.sources == now.sources && st.prepare_script == now.prepare_script && st.makedepends
                == now.makedepends ==> r >= if k < 2 {
                k
            } else {
                2
            }
            &&& st.sources == now.sources && st.prepare_script == now.prepare_script && st.build_script
                == now.build_script && st.makedepends == now.makedepends ==> r >= if k < 3 {
                k
            } else {
                3
            }
            &&& st.sources == now.sources && st.prepare_script == now.prepare_script && st.build_script
                == now.build_script && st.makedepends == now.makedepends && st.package_script
                == now.package_script ==> r == k
        }),
{
}

/// The build dependencies reported missing are exactly those marked absent:
/// each one marked absent is reported, and each one reported is one marked
/// absent, so nothing absent is left out and nothing present is reported.
pub proof fn lemma_missing_exactly_absent(deps: Seq<Seq<char>>, present: Seq<bool>)
    requires
        present.len() == deps.len(),
    ensures
        forall|i: int| 0 <= i < deps.len() && !present[i] ==> missing_spec(deps, present).contains(
            #[trigger] deps[i],
        ),
        forall|x: Seq<char>| #[trigger]
            missing_spec(deps, present).contains(x) ==> exists|i: int|
                0 <= i < deps.len() && !present[i] && deps[i] == x,
        missing_spec(deps, present).len() <= deps.len(),
    decreases deps.len(),
{
    if deps.len() > 0 {
        let init = deps.drop_last();
        let pinit = present.drop_last();
        lemma_missing_prefix_flags(init, present, pinit);
        lemma_missing_exactly_absent(init, pinit);
        let m = missing_spec(deps, present);
        let mi = missing_spec(init, present);
        assert forall|i: int| 0 <= i < deps.len() && !present[i] implies m.contains(#[trigger] deps[i]) by {
            if i < deps.len() - 1 {
                assert(init[i] == deps[i]);
                assert(!pinit[i]);
                assert(mi.contains(init[i]));
                let j = choose|j: int| 0 <= j < mi.len() && mi[j] == init[i];
                if !present[deps.len() - 1] {
                    assert(m[j] == mi[j]);
                }
            } else {
                assert(m[m.len() - 1] == deps.last());
            }
        }
        assert forall|x: Seq<char>| #[trigger] m.contains(x) implies exists|i: int|
            0 <= i < deps.len() && !present[i] && deps[i] == x by {
            let j = choose|j: int| 0 <= j < m.len() && m[j] == x;
            if j < mi.len() {
                assert(mi[j] == x);
                assert(mi.contains(x));
                let i = choose|i: int| 0 <= i < init.len() && !pinit[i] && init[i] == x;
                assert(deps[i] == x && !present[i]);
            } else {
                assert(x == deps.last());
                assert(!present[deps.len() - 1]);
            }
        }
    }
}

/// What is missing among the first dependencies depends only on their own
/// flags.
proof fn lemma_missing_prefix_flags(deps: Seq<Seq<char>>, a: Seq<bool>, b: Seq<bool>)
    requires
        deps.len() <= a.len(),
        deps.len() <= b.len(),
        forall|i: int| 0 <= i < deps.len() ==> a[i] == b[i],
    ensures
        missing_spec(deps, a) == missing_spec(deps, b),
    decreases deps.len(),
{
    if deps.len() > 0 {
        lemma_missing_prefix_flags(deps.drop_last(), a, b);
    }
}

} // verus!
