use numbat_session::catalog::{
    build_function_groups, build_unit_groups, FnOrigin, RawFunction, RawUnit,
};

fn unit(dim: Option<&str>, scalar: bool, aliases: &[&str], display: Option<&str>) -> RawUnit {
    RawUnit {
        scalar,
        dimension: dim.map(String::from),
        aliases: aliases.iter().map(|a| String::from(*a)).collect(),
        display_name: display.map(String::from),
    }
}

#[test]
fn unit_groups_follow_priority_then_alphabetical_order() {
    let raw = vec![
        unit(Some("Banana"), false, &["ban"], Some("banana")),
        unit(Some("Money"), false, &["EUR"], Some("euro")),
        unit(Some("Angle"), false, &["rad"], Some("radian")),
        unit(Some("Length"), false, &["m", "meter"], Some("metre")),
    ];
    let groups = build_unit_groups(&raw);
    let dims: Vec<&str> = groups.iter().map(|g| g.dimension.as_str()).collect();
    assert_eq!(dims, vec!["Length", "Money", "Angle", "Banana"]);
}

#[test]
fn unit_entries_are_sorted_and_deduplicated_by_display_name() {
    let raw = vec![
        unit(Some("Length"), false, &["mi"], Some("mile")),
        unit(Some("Length"), false, &["in"], Some("inch")),
        unit(Some("Length"), false, &["inch2"], Some("inch")),
        unit(Some("Length"), false, &["m"], Some("metre")),
    ];
    let groups = build_unit_groups(&raw);
    assert_eq!(groups.len(), 1);
    let displays: Vec<&str> =
        groups[0].units.iter().map(|u| u.display_name.as_str()).collect();
    assert_eq!(displays, vec!["inch", "metre", "mile"]);
}

#[test]
fn scalar_unresolved_and_aliasless_units_are_skipped() {
    let raw = vec![
        unit(Some("Length"), false, &["m"], Some("metre")),
        unit(None, false, &["x"], Some("mystery")),
        unit(Some("Scalarish"), true, &["one"], Some("one")),
        unit(Some("Length"), false, &[], Some("nameless")),
    ];
    let groups = build_unit_groups(&raw);
    assert_eq!(groups.len(), 1);
    assert_eq!(groups[0].units.len(), 1);
    assert_eq!(groups[0].units[0].display_name, "metre");
}

#[test]
fn canonical_name_is_first_shortest_alias() {
    let raw = vec![unit(Some("Length"), false, &["meter", "m", "mtr"], None)];
    let groups = build_unit_groups(&raw);
    assert_eq!(groups[0].units[0].canonical_name, "m");
    // the display name falls back to the canonical name
    assert_eq!(groups[0].units[0].display_name, "m");
}

#[test]
fn no_group_holds_two_equal_display_names() {
    let raw = vec![
        unit(Some("Time"), false, &["s"], Some("second")),
        unit(Some("Time"), false, &["sec"], Some("second")),
        unit(Some("Time"), false, &["min"], Some("minute")),
        unit(Some("Mass"), false, &["g"], Some("gram")),
    ];
    let groups = build_unit_groups(&raw);
    for g in &groups {
        for i in 0..g.units.len() {
            for j in (i + 1)..g.units.len() {
                assert_ne!(g.units[i].display_name, g.units[j].display_name);
            }
        }
    }
}

fn func(name: &str, origin: FnOrigin) -> RawFunction {
    RawFunction {
        fn_name: String::from(name),
        name: None,
        signature: format!("fn {name}"),
        description: None,
        origin,
    }
}

#[test]
fn function_groups_are_labeled_by_origin() {
    let raw = vec![
        func("user_fn", FnOrigin::Session),
        func("builtin_fn", FnOrigin::Builtin),
        func("si_fn", FnOrigin::Module(vec![String::from("units"), String::from("si")])),
        func("file_fn", FnOrigin::SourceFile(String::from("notes.nbt"))),
    ];
    let groups = build_function_groups(&raw);
    let labels: Vec<&str> = groups.iter().map(|g| g.module.as_str()).collect();
    assert_eq!(labels, vec!["Internal", "User-defined", "notes.nbt", "units::si"]);
}

#[test]
fn functions_within_a_group_sort_by_internal_name() {
    let raw = vec![
        func("zeta", FnOrigin::Builtin),
        func("alpha_fn", FnOrigin::Builtin),
        func("mid", FnOrigin::Builtin),
    ];
    let groups = build_function_groups(&raw);
    assert_eq!(groups.len(), 1);
    let names: Vec<&str> = groups[0].functions.iter().map(|f| f.fn_name.as_str()).collect();
    assert_eq!(names, vec!["alpha_fn", "mid", "zeta"]);
}
