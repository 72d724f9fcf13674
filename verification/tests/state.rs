use pkgmk::state::{State, StateStep};

fn strings(v: &[&str]) -> Vec<String> {
    v.iter().map(|s| s.to_string()).collect()
}

fn done() -> State {
    State {
        step: StateStep::Packaged,
        makedepends: strings(&["cc"]),
        sources: strings(&["a.tar"]),
        prepare_script: 1,
        build_script: 2,
        package_script: 3,
    }
}

#[test]
fn unchanged_inputs_keep_the_record() {
    let mut st = done();
    st.refresh(&strings(&["cc"]), &strings(&["a.tar"]), 1, 2, 3);
    assert_eq!(st.step, StateStep::Packaged);
}

#[test]
fn changed_package_script_redoes_packaging() {
    let mut st = done();
    st.refresh(&strings(&["cc"]), &strings(&["a.tar"]), 1, 2, 9);
    assert_eq!(st.step, StateStep::Built);
    assert_eq!(st.package_script, 9);
}

#[test]
fn changed_build_script_redoes_build() {
    let mut st = done();
    st.refresh(&strings(&["cc"]), &strings(&["a.tar"]), 1, 9, 3);
    assert_eq!(st.step, StateStep::Prepared);
    assert_eq!(st.build_script, 9);
}

#[test]
fn changed_dependencies_redo_preparation() {
    let mut st = done();
    st.refresh(&strings(&["cc", "make"]), &strings(&["a.tar"]), 1, 2, 3);
    assert_eq!(st.step, StateStep::Downloaded);
    assert_eq!(st.makedepends, strings(&["cc", "make"]));
    // The later checks no longer apply once the step fell back.
    assert_eq!(st.package_script, 3);
}

#[test]
fn changed_sources_redo_everything() {
    let mut st = done();
    st.refresh(&strings(&["cc"]), &strings(&["b.tar"]), 7, 8, 9);
    assert_eq!(st.step, StateStep::Initial);
    assert_eq!(st.sources, strings(&["b.tar"]));
    assert_eq!(st.package_script, 9);
    assert_eq!(st.build_script, 8);
    assert_eq!(st.prepare_script, 7);
}

#[test]
fn refreshing_twice_is_refreshing_once() {
    let mut a = done();
    a.refresh(&strings(&["x"]), &strings(&["a.tar"]), 1, 5, 6);
    let step = a.step;
    a.refresh(&strings(&["x"]), &strings(&["a.tar"]), 1, 5, 6);
    assert_eq!(a.step, step);
    assert_eq!(a.step, StateStep::Downloaded);
}

#[test]
fn fresh_record_starts_at_the_beginning() {
    let mut st = State::default();
    assert_eq!(st.step, StateStep::Initial);
    st.refresh(&strings(&["cc"]), &strings(&["a"]), 1, 2, 3);
    assert_eq!(st.step, StateStep::Initial);
    assert!(st.sources.is_empty());
}

#[test]
fn stages_follow_in_order() {
    let mut step = StateStep::default();
    let mut seen = Vec::new();
    while let Some(next) = step.next_stage() {
        seen.push(next);
        step = next;
    }
    assert_eq!(seen, vec![StateStep::Downloaded, StateStep::Prepared, StateStep::Built, StateStep::Packaged]);
    assert!(StateStep::Initial.precedes(&StateStep::Downloaded));
    assert!(!StateStep::Built.precedes(&StateStep::Built));
    assert_eq!(StateStep::Packaged.order(), 4);
}

#[test]
fn missing_dependencies_keep_their_order() {
    let deps = strings(&["cc", "make", "git", "ld"]);
    let missing = pkgmk::state::missing_dependencies(&deps, &vec![true, false, true, false]);
    assert_eq!(missing, strings(&["make", "ld"]));
    assert!(pkgmk::state::missing_dependencies(&deps, &vec![true; 4]).is_empty());
}

#[test]
fn missing_dependencies_message() {
    assert_eq!(pkgmk::state::missing_message(&strings(&["make", "ld"])), "Missing dependencies: make, ld");
    assert_eq!(pkgmk::state::missing_message(&strings(&["git"])), "Missing dependencies: git");
    assert_eq!(pkgmk::state::missing_message(&strings(&[])), "Missing dependencies: ");
}
