use nvim_instance::locate::{get_nvim_glob, get_nvim_socket_paths, Configuration};
use nvim_instance::path::{path_under_directory, push_segment};
use nvim_instance::probe::{
    get_instance, get_nvim_instances, order_by_candidate, strip_trailing_newline, NeovimInstance,
    ProbeOutcome,
};
use nvim_instance::select::get_instance_for_path;

fn bytes(s: &str) -> Vec<u8> {
    s.as_bytes().to_vec()
}

fn answered(cwd: &str) -> ProbeOutcome {
    ProbeOutcome::Finished { success: true, stdout: bytes(&format!("{}\n", cwd)) }
}

fn instance(addr: &str, cwd: &str) -> NeovimInstance {
    NeovimInstance { server_address: bytes(addr), working_directory: bytes(cwd) }
}

fn under(path: &str, dir: &str) -> bool {
    path_under_directory(&Some(bytes(path)), &Some(bytes(dir)))
}

#[test]
fn matching_is_on_segment_boundaries() {
    assert!(!under("/home/u/project/file.txt", "/home/u/proj"));
    assert!(under("/home/u/proj/file.txt", "/home/u/proj"));
    assert!(under("/home/u/proj", "/home/u/proj"));
}

#[test]
fn root_directory_holds_everything() {
    assert!(under("/a/b", "/"));
    assert!(under("/", "/"));
}

#[test]
fn deeper_directory_does_not_hold_its_parent() {
    assert!(!under("/home/u", "/home/u/proj"));
    assert!(!under("/other/proj", "/home/u/proj"));
}

#[test]
fn failed_resolution_never_matches() {
    assert!(!path_under_directory(&None, &Some(bytes("/a"))));
    assert!(!path_under_directory(&Some(bytes("/a")), &None));
    assert!(!path_under_directory(&None, &None));
}

#[test]
fn push_segment_joins_like_a_path() {
    let mut p = bytes("/tmp");
    push_segment(&mut p, b"x");
    assert_eq!(p, bytes("/tmp/x"));
    let mut q = bytes("/tmp/");
    push_segment(&mut q, b"x");
    assert_eq!(q, bytes("/tmp/x"));
    let mut r = bytes("/tmp");
    push_segment(&mut r, b"/abs");
    assert_eq!(r, bytes("/abs"));
    let mut e = Vec::new();
    push_segment(&mut e, b"x");
    assert_eq!(e, bytes("x"));
}

#[test]
fn one_trailing_newline_is_stripped() {
    assert_eq!(strip_trailing_newline(bytes("/work\n")), bytes("/work"));
    assert_eq!(strip_trailing_newline(bytes("/work\n\n")), bytes("/work\n"));
    assert_eq!(strip_trailing_newline(bytes("/work")), bytes("/work"));
    assert_eq!(strip_trailing_newline(Vec::new()), Vec::<u8>::new());
    assert_eq!(strip_trailing_newline(bytes("\n")), Vec::<u8>::new());
}

#[test]
fn runtime_directory_gives_the_pattern() {
    let c = Configuration { runtime_dir: Some(bytes("/run/user/1000")), temp_dir: None, user: None };
    assert_eq!(get_nvim_glob(&c), Some(bytes("/run/user/1000/*/nvim.*.0")));
}

#[test]
fn runtime_directory_wins_over_temp_and_user() {
    let c = Configuration {
        runtime_dir: Some(bytes("/run/user/1000/")),
        temp_dir: Some(bytes("/tmp")),
        user: Some(bytes("alice")),
    };
    assert_eq!(get_nvim_glob(&c), Some(bytes("/run/user/1000/*/nvim.*.0")));
}

#[test]
fn temp_directory_and_user_give_the_pattern() {
    let c = Configuration { runtime_dir: None, temp_dir: Some(bytes("/tmp")), user: Some(bytes("alice")) };
    assert_eq!(get_nvim_glob(&c), Some(bytes("/tmp/nvim.alice/*/nvim.*.0")));
}

#[test]
fn missing_configuration_gives_no_pattern() {
    let only_temp = Configuration { runtime_dir: None, temp_dir: Some(bytes("/tmp")), user: None };
    assert_eq!(get_nvim_glob(&only_temp), None);
    let only_user = Configuration { runtime_dir: None, temp_dir: None, user: Some(bytes("alice")) };
    assert_eq!(get_nvim_glob(&only_user), None);
    assert_eq!(get_nvim_glob(&Configuration::default()), None);
}

#[test]
fn unreadable_entries_are_skipped_in_order() {
    let entries = vec![Some(bytes("/s/a")), None, Some(bytes("/s/c")), None];
    assert_eq!(get_nvim_socket_paths(entries), vec![bytes("/s/a"), bytes("/s/c")]);
    assert_eq!(get_nvim_socket_paths(Vec::new()), Vec::<Vec<u8>>::new());
}

#[test]
fn only_a_successful_probe_yields_an_instance() {
    assert_eq!(get_instance(bytes("/s/a"), answered("/w")), Some(instance("/s/a", "/w")));
    let failed = ProbeOutcome::Finished { success: false, stdout: bytes("/w\n") };
    assert_eq!(get_instance(bytes("/s/a"), failed), None);
    assert_eq!(get_instance(bytes("/s/a"), ProbeOutcome::LaunchFailed), None);
    assert_eq!(get_instance(bytes("/s/a"), ProbeOutcome::TimedOut), None);
}

#[test]
fn registry_keeps_successes_in_candidate_order() {
    let addrs = vec![bytes("/s/a"), bytes("/s/b"), bytes("/s/c"), bytes("/s/d")];
    let outcomes = vec![
        ProbeOutcome::LaunchFailed,
        answered("/w/b"),
        ProbeOutcome::Finished { success: false, stdout: bytes("/w/c\n") },
        answered("/w/d"),
    ];
    assert_eq!(
        get_nvim_instances(addrs, outcomes),
        vec![instance("/s/b", "/w/b"), instance("/s/d", "/w/d")]
    );
}

#[test]
fn end_to_end_with_a_timed_out_candidate() {
    let addrs = vec![bytes("A"), bytes("B"), bytes("C")];
    let outcomes = vec![answered("/work/alpha"), ProbeOutcome::TimedOut, answered("/work/beta")];
    let registry = get_nvim_instances(addrs, outcomes);
    assert_eq!(registry, vec![instance("A", "/work/alpha"), instance("C", "/work/beta")]);
    let dirs: Vec<Option<Vec<u8>>> =
        registry.iter().map(|i| Some(i.working_directory.clone())).collect();
    let chosen = get_instance_for_path(&Some(bytes("/work/beta/notes.md")), registry, &dirs);
    assert_eq!(chosen, Some(instance("C", "/work/beta")));
}

#[test]
fn end_to_end_with_no_candidates() {
    let registry = get_nvim_instances(Vec::new(), Vec::new());
    assert!(registry.is_empty());
    assert_eq!(get_instance_for_path(&Some(bytes("/any/file")), registry, &Vec::new()), None);
    assert_eq!(get_instance_for_path(&None, Vec::new(), &Vec::new()), None);
}

#[test]
fn target_equal_to_a_working_directory_matches() {
    let registry = vec![instance("A", "/work/alpha"), instance("B", "/work/beta")];
    let dirs = vec![Some(bytes("/work/alpha")), Some(bytes("/work/beta"))];
    assert_eq!(
        get_instance_for_path(&Some(bytes("/work/beta")), registry, &dirs),
        Some(instance("B", "/work/beta"))
    );
}

#[test]
fn first_match_in_registry_order_wins() {
    let registry = vec![instance("A", "/work"), instance("B", "/work/beta")];
    let dirs = vec![Some(bytes("/work")), Some(bytes("/work/beta"))];
    assert_eq!(
        get_instance_for_path(&Some(bytes("/work/beta/x")), registry, &dirs),
        Some(instance("A", "/work"))
    );
}

#[test]
fn unresolvable_directory_is_passed_over() {
    let registry = vec![instance("A", "/gone"), instance("B", "/work")];
    let dirs = vec![None, Some(bytes("/work"))];
    assert_eq!(
        get_instance_for_path(&Some(bytes("/work/f")), registry, &dirs),
        Some(instance("B", "/work"))
    );
}

#[test]
fn unresolvable_target_matches_nothing() {
    let registry = vec![instance("A", "/work")];
    let dirs = vec![Some(bytes("/work"))];
    assert_eq!(get_instance_for_path(&None, registry, &dirs), None);
}

#[test]
fn targets_with_the_same_resolution_select_the_same() {
    // "src/main.rs" and "./src/../src/main.rs" from /work both resolve to /work/src/main.rs.
    let resolved = bytes("/work/src/main.rs");
    let registry = vec![instance("A", "/home"), instance("B", "/work")];
    let dirs = vec![Some(bytes("/home")), Some(bytes("/work"))];
    let first = get_instance_for_path(&Some(resolved.clone()), registry.clone(), &dirs);
    let second = get_instance_for_path(&Some(resolved), registry, &dirs);
    assert_eq!(first, second);
    assert_eq!(first, Some(instance("B", "/work")));
}

#[test]
fn completion_order_does_not_change_the_registry() {
    let addrs = vec![bytes("A"), bytes("B"), bytes("C")];
    let fast_first = vec![
        (2, answered("/work/beta")),
        (0, answered("/work/alpha")),
        (1, ProbeOutcome::TimedOut),
    ];
    let slow_first = vec![
        (1, ProbeOutcome::TimedOut),
        (0, answered("/work/alpha")),
        (2, answered("/work/beta")),
    ];
    let a = order_by_candidate(3, fast_first).unwrap();
    let b = order_by_candidate(3, slow_first).unwrap();
    assert_eq!(a, b);
    assert_eq!(a, vec![answered("/work/alpha"), ProbeOutcome::TimedOut, answered("/work/beta")]);
    assert_eq!(
        get_nvim_instances(addrs, a),
        vec![instance("A", "/work/alpha"), instance("C", "/work/beta")]
    );
}

#[test]
fn incomplete_completion_orders_are_refused() {
    let duplicate = vec![(0, ProbeOutcome::TimedOut), (0, ProbeOutcome::LaunchFailed)];
    assert_eq!(order_by_candidate(2, duplicate), None);
    let out_of_range = vec![(0, ProbeOutcome::TimedOut), (2, ProbeOutcome::LaunchFailed)];
    assert_eq!(order_by_candidate(2, out_of_range), None);
    let missing = vec![(1, ProbeOutcome::TimedOut)];
    assert_eq!(order_by_candidate(2, missing), None);
    assert_eq!(order_by_candidate(0, Vec::new()), Some(Vec::new()));
}
