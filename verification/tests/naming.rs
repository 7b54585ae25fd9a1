use den::naming::{
    container_name, container_name_of, sandbox_id, sandbox_id_of, volume_name, volume_name_of,
};

fn hex(s: &str) -> bool {
    s.chars().all(|c| c.is_ascii_digit() || ('a'..='f').contains(&c))
}

#[test]
fn container_names_carry_the_tier() {
    let n = container_name("gpu-large");
    assert!(n.starts_with("den-gpu-large-"));
    assert_eq!(n.len(), "den-gpu-large-".len() + 8);
    assert!(hex(&n[n.len() - 8..]));
    assert_ne!(n, container_name("gpu-large"));
}

#[test]
fn volume_names_are_short() {
    let n = volume_name();
    assert!(n.starts_with("den-vol-"));
    assert_eq!(n.len(), 16);
    assert!(hex(&n[8..]));
    assert_ne!(n, volume_name());
}

#[test]
fn sandbox_ids_end_in_a_random_uuid() {
    let id = sandbox_id("standard");
    assert!(id.starts_with("standard-"));
    let u = uuid::Uuid::parse_str(&id["standard-".len()..]).unwrap();
    assert_eq!(u.get_version_num(), 4);
    assert_eq!(u.get_variant(), uuid::Variant::RFC4122);
    assert_ne!(id, sandbox_id("standard"));
    assert_ne!(sandbox_id("a"), sandbox_id("b"));
}

const A: &str = "0123abcd-89ab-4def-8123-456789abcdef";
const B: &str = "fedcba98-89ab-4def-8123-456789abcdef";

#[test]
fn names_come_from_the_drawn_uuid() {
    assert_eq!(container_name_of("t", A), "den-t-0123abcd");
    assert_eq!(volume_name_of(A), "den-vol-0123abcd");
    assert_eq!(sandbox_id_of("t", A), "t-0123abcd-89ab-4def-8123-456789abcdef");
}

#[test]
fn different_draws_give_different_names() {
    assert_ne!(volume_name_of(A), volume_name_of(B));
    assert_ne!(container_name_of("t", A), container_name_of("t", B));
    assert_ne!(container_name_of("t", A), container_name_of("u", A));
    assert_ne!(sandbox_id_of("t", A), sandbox_id_of("t", B));
}
