use owg::ids::{decimal_string, mirror_id_string, projectile_id_string};
use owg::protocol::SchemaVersion;
use owg::rng::Rng;

#[test]
fn rng_steps_as_documented() {
    let mut r = Rng::from_seed(1);
    assert_eq!(r.next_u32(), 1481765933);
    let mut r = Rng::from_seed(42);
    let a = r.next_u32();
    assert_eq!(a, 2104627054);
    let mut again = Rng::from_seed(42);
    assert_eq!(again.next_u32(), a);
    assert_ne!(r.next_u32(), a);
}

#[test]
fn decimal_rendering() {
    assert_eq!(decimal_string(0), "0");
    assert_eq!(decimal_string(7), "7");
    assert_eq!(decimal_string(1234), "1234");
    assert_eq!(decimal_string(u64::MAX), u64::MAX.to_string());
}

#[test]
fn derived_ids() {
    let p = projectile_id_string(3, 12);
    assert_eq!(p, "p3_12");
    assert_eq!(mirror_id_string(&p), "e_proj_p3_12");
}

#[test]
fn schema_major_must_match() {
    let v = SchemaVersion::v0_1();
    assert_eq!(v, SchemaVersion { major: 0, minor: 1 });
    assert!(v.accepts(&SchemaVersion { major: 0, minor: 9 }));
    assert!(!v.accepts(&SchemaVersion { major: 1, minor: 1 }));
}
