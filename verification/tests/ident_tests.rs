use judge_core::ident::program_id;

#[test]
fn same_inputs_same_id() {
    let a = program_id("python3", "print(input())");
    let b = program_id("python3", "print(input())");
    assert_eq!(a, b);
}

#[test]
fn id_is_namespaced_by_compiler() {
    let a = program_id("gcc-c", "int main(){}");
    let b = program_id("clang-c", "int main(){}");
    assert_ne!(a, b);
}

#[test]
fn id_depends_on_source_bytes() {
    let a = program_id("python3", "print(1)");
    let b = program_id("python3", "print(2)");
    assert_ne!(a, b);
}

#[test]
fn id_shape_is_name_dash_digest() {
    let name = "python3";
    let id = program_id(name, "print(input())");
    assert_eq!(id.len(), name.len() + 1 + 64);
    assert!(id.starts_with("python3-"));
    let digest = &id[name.len() + 1..];
    assert_eq!(digest.len(), 64);
    assert!(digest.chars().all(|c| c.is_ascii_hexdigit() && !c.is_ascii_uppercase()));
    // pin one digest so the hash and hex wrappers cannot echo their input
    let empty = program_id("x", "");
    assert_eq!(
        empty,
        "x-e3b0c44298fc1c149afbf4c8996fb92427ae41e4649b934ca495991b7852b855"
    );
}
