use font_locator::FontDataHandle;
use std::cmp::Ordering;

fn disk(path: &str, index: u32) -> FontDataHandle {
    FontDataHandle::OnDisk { path: path.to_string(), index }
}

fn mem(name: &str, data: &[u8], index: u32) -> FontDataHandle {
    FontDataHandle::Memory { name: name.to_string(), data: data.to_vec(), index }
}

fn samples() -> Vec<FontDataHandle> {
    vec![
        disk("/a.ttf", 0),
        disk("/a.ttf", 1),
        disk("/b.ttf", 0),
        disk("/ab.ttf", 0),
        disk("/é.ttf", 0),
        disk("", 7),
        mem("x", &[1, 2, 3], 0),
        mem("x", &[1, 2, 4], 0),
        mem("x", &[1, 2], 9),
        mem("x", &[1, 2, 3], 1),
        mem("y", &[], 0),
        mem("", &[0xff], 0),
    ]
}

#[test]
fn on_disk_orders_before_memory() {
    assert!(disk("/zzz", 99) < mem("", &[], 0));
    assert_eq!(mem("", &[], 0).compare(&disk("/zzz", 99)), Ordering::Greater);
}

#[test]
fn order_goes_by_fields_in_declared_order() {
    assert!(disk("/a.ttf", 5) < disk("/b.ttf", 0));
    assert!(disk("/a.ttf", 0) < disk("/a.ttf", 1));
    assert!(disk("/a", 9) < disk("/a.ttf", 0));
    assert!(mem("a", &[9], 9) < mem("b", &[], 0));
    assert!(mem("a", &[1, 2], 9) < mem("a", &[1, 3], 0));
    assert!(mem("a", &[1, 2], 0) < mem("a", &[1, 2], 1));
}

#[test]
fn memory_equality_compares_bytes_not_length() {
    assert!(mem("x", &[1, 2, 3], 0) != mem("x", &[1, 2, 4], 0));
    assert!(mem("x", &[1, 2, 3], 0) == mem("x", &[1, 2, 3], 0));
    assert_eq!(mem("x", &[1, 2, 3], 0).describe(), mem("x", &[1, 2, 4], 0).describe());
}

#[test]
fn hand_order_agrees_with_derived_total_order() {
    let s = samples();
    for a in &s {
        assert_eq!(a.compare(a), Ordering::Equal);
        assert!(a == a);
        for b in &s {
            assert_eq!(a.partial_cmp(b), Some(a.cmp(b)));
            assert_eq!(a.compare(b), a.cmp(b));
            assert_eq!(a.compare(b), b.compare(a).reverse());
            assert_eq!(a == b, a.compare(b) == Ordering::Equal);
            for c in &s {
                if a < b && b < c {
                    assert!(a < c);
                }
            }
        }
    }
}

#[test]
fn sorting_is_deterministic() {
    let mut s = samples();
    s.reverse();
    s.sort();
    let mut t = samples();
    t.sort_by(|a, b| a.compare(b));
    assert!(s == t);
    assert!(s[0] == disk("", 7), "{}", s[0].describe());
    assert!(s[s.len() - 1] == mem("y", &[], 0));
}

#[test]
fn describe_on_disk_shows_path_and_index() {
    assert_eq!(disk("/usr/share/fonts/a.ttc", 3).describe(), "OnDisk { path: \"/usr/share/fonts/a.ttc\", index: 3 }");
    assert_eq!(disk("x", 4294967295).describe(), "OnDisk { path: \"x\", index: 4294967295 }");
}

#[test]
fn describe_memory_shows_length_not_bytes() {
    let data = vec![7u8; 1234];
    assert_eq!(mem("builtin", &data, 0).describe(), "Memory { name: \"builtin\", data_len: 1234, index: 0 }");
    assert_eq!(mem("", &[], 10).describe(), "Memory { name: \"\", data_len: 0, index: 10 }");
}
