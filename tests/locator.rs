use font_locator::{
    load_fonts_with, new_locator, FontAttributes, FontDataHandle, FontLocator, FontLocatorSelection,
    FontStyle, LoadedSet, LocatorError, NopSystemSource,
};
use std::cell::Cell;

fn family(name: &str) -> FontAttributes {
    FontAttributes::new(name, 400, 5, FontStyle::Normal)
}

fn disk(path: &str, index: u32) -> FontDataHandle {
    FontDataHandle::OnDisk { path: path.to_string(), index }
}

fn only_family_a(a: &FontAttributes) -> Result<Option<FontDataHandle>, LocatorError> {
    if a.family == "FamilyA" {
        Ok(Some(disk("/fonts/a.ttf", 0)))
    } else {
        Ok(None)
    }
}

#[test]
fn only_resolved_selection_is_returned_and_marked() {
    let mut loaded = LoadedSet::new();
    let out = load_fonts_with(&[family("FamilyA"), family("FamilyB")], &mut loaded, only_family_a)
        .unwrap();
    assert!(out == vec![disk("/fonts/a.ttf", 0)]);
    assert_eq!(loaded.len(), 1);
    assert!(loaded.contains(&family("FamilyA")));
    assert!(!loaded.contains(&family("FamilyB")));
}

#[test]
fn second_pass_with_same_loaded_set_returns_nothing() {
    let mut loaded = LoadedSet::new();
    let sels = [family("FamilyA"), family("FamilyB")];
    let first = load_fonts_with(&sels, &mut loaded, only_family_a).unwrap();
    assert_eq!(first.len(), 1);
    let second = load_fonts_with(&sels, &mut loaded, only_family_a).unwrap();
    assert!(second.is_empty());
    assert_eq!(loaded.len(), 1);
}

#[test]
fn selections_already_loaded_are_not_queried() {
    let mut loaded = LoadedSet::new();
    assert!(loaded.insert(family("FamilyA")));
    let calls = Cell::new(0u32);
    let out = load_fonts_with(&[family("FamilyA"), family("FamilyC")], &mut loaded, |a| {
        calls.set(calls.get() + 1);
        assert_ne!(a.family, "FamilyA");
        Ok(Some(disk("/fonts/c.otf", 2)))
    })
    .unwrap();
    assert_eq!(calls.get(), 1);
    assert!(out == vec![disk("/fonts/c.otf", 2)]);
    assert!(loaded.contains(&family("FamilyA")));
    assert!(loaded.contains(&family("FamilyC")));
    assert_eq!(loaded.len(), 2);
}

#[test]
fn repeated_selection_in_one_pass_resolves_once() {
    let mut loaded = LoadedSet::new();
    let calls = Cell::new(0u32);
    let out = load_fonts_with(&[family("FamilyA"), family("FamilyA")], &mut loaded, |a| {
        calls.set(calls.get() + 1);
        only_family_a(a)
    })
    .unwrap();
    assert_eq!(calls.get(), 1);
    assert_eq!(out.len(), 1);
    assert_eq!(loaded.len(), 1);
}

#[test]
fn attributes_other_than_family_distinguish_selections() {
    let mut loaded = LoadedSet::new();
    let regular = family("FamilyA");
    let bold = FontAttributes::new("FamilyA", 700, 5, FontStyle::Normal);
    let italic = FontAttributes::new("FamilyA", 400, 5, FontStyle::Italic);
    let out = load_fonts_with(&[regular, bold, italic], &mut loaded, only_family_a).unwrap();
    assert_eq!(out.len(), 3);
    assert_eq!(loaded.len(), 3);
}

#[test]
fn service_failure_is_reported() {
    let mut loaded = LoadedSet::new();
    let r = load_fonts_with(&[family("FamilyA")], &mut loaded, |_a| {
        Err(LocatorError::PlatformQuery("service unreachable".to_string()))
    });
    match r {
        Err(e) => assert_eq!(e, LocatorError::PlatformQuery("service unreachable".to_string())),
        Ok(_) => panic!("a service failure must be reported"),
    }
    assert_eq!(loaded.len(), 0);
}

#[test]
fn empty_selection_list_resolves_nothing() {
    let mut loaded = LoadedSet::new();
    let out = load_fonts_with(&[], &mut loaded, only_family_a).unwrap();
    assert!(out.is_empty());
    assert_eq!(loaded.len(), 0);
}

#[test]
fn loaded_set_insert_reports_novelty() {
    let mut loaded = LoadedSet::new();
    assert_eq!(loaded.len(), 0);
    assert!(loaded.insert(family("FamilyA")));
    assert!(!loaded.insert(family("FamilyA")));
    assert!(loaded.insert(family("FamilyB")));
    assert_eq!(loaded.len(), 2);
}

#[test]
fn nop_backend_loads_nothing() {
    let nop = NopSystemSource {};
    let mut loaded = LoadedSet::new();
    loaded.insert(family("FamilyZ"));
    let out = nop.load_fonts(&[family("FamilyA"), family("FamilyB")], &mut loaded).unwrap();
    assert!(out.is_empty());
    assert_eq!(loaded.len(), 1);
    assert!(!loaded.contains(&family("FamilyA")));
}

#[test]
fn nop_backend_has_no_fallback() {
    let nop = NopSystemSource {};
    assert!(nop.locate_fallback_for_codepoints(&['a', 'é']).unwrap().is_empty());
    assert!(nop.locate_fallback_for_codepoints(&[]).unwrap().is_empty());
}

#[test]
fn fallback_without_cjk_coverage_is_empty() {
    let locator = new_locator(FontLocatorSelection::ConfigDirsOnly).unwrap();
    let out = locator.locate_fallback_for_codepoints(&['汉']).unwrap();
    assert!(out.is_empty());
}

#[test]
fn config_dirs_only_always_yields_a_locator() {
    let locator = new_locator(FontLocatorSelection::ConfigDirsOnly).unwrap();
    let mut loaded = LoadedSet::new();
    let out = locator.load_fonts(&[family("FamilyA")], &mut loaded).unwrap();
    assert!(out.is_empty());
    assert_eq!(loaded.len(), 0);
}

#[test]
fn unavailable_backend_is_reported_not_aborted() {
    for sel in [
        FontLocatorSelection::FontConfig,
        FontLocatorSelection::CoreText,
        FontLocatorSelection::Gdi,
    ] {
        match new_locator(sel) {
            Err(e) => assert_eq!(e, LocatorError::BackendUnavailable(sel)),
            Ok(_) => panic!("backend {:?} should be unavailable", sel),
        }
    }
}
