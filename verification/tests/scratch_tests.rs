use judge_core::scratch::{fresh_scratch_names, scratch_names};

#[test]
fn names_are_prefix_plus_fixed_suffixes() {
    let names = scratch_names("p1");
    assert_eq!(names.prefix, "p1");
    assert_eq!(names.stdin_name, "p1-stdin.txt");
    assert_eq!(names.stdout_name, "p1-stdout.txt");
    assert_eq!(names.stderr_name, "p1-stderr.txt");
    assert_eq!(names.report_name, "p1-time.txt");
}

#[test]
fn one_invocation_names_are_pairwise_distinct() {
    let n = scratch_names("abc");
    let all = [&n.stdin_name, &n.stdout_name, &n.stderr_name, &n.report_name];
    for i in 0..all.len() {
        for j in 0..all.len() {
            if i != j {
                assert_ne!(all[i], all[j]);
            }
        }
    }
}

#[test]
fn fresh_prefixes_are_uuid_shaped() {
    let n = fresh_scratch_names();
    assert_eq!(n.prefix.len(), 36);
    assert!(n.prefix.chars().all(|c| c == '-' || c.is_ascii_hexdigit()));
    assert!(n.stdin_name.ends_with("-stdin.txt"));
}

#[test]
fn concurrent_invocations_share_no_file() {
    let a = fresh_scratch_names();
    let b = fresh_scratch_names();
    assert_ne!(a.prefix, b.prefix);
    let left = [&a.stdin_name, &a.stdout_name, &a.stderr_name, &a.report_name];
    let right = [&b.stdin_name, &b.stdout_name, &b.stderr_name, &b.report_name];
    for x in left {
        for y in &right {
            assert_ne!(&x, y);
        }
    }
}
