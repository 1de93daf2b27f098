use numbat_session::catalog::{get_constants, get_functions, get_units};
use numbat_session::complete::get_completions;
use numbat_session::get_version;
use numbat_session::session::{calculate, fresh_context, reset};

#[test]
fn version_is_the_fixed_engine_version() {
    assert_eq!(get_version(), "1.24.0");
}

#[test]
fn committed_definitions_persist() {
    let mut ctx = fresh_context();
    let r = calculate(&mut ctx, "let session_x = 2", true);
    assert!(!r.is_error);
    let r2 = calculate(&mut ctx, "session_x + 1", true);
    assert!(!r2.is_error);
    assert_eq!(r2.value.as_deref(), Some("3"));
}

#[test]
fn preview_leaves_canonical_state_untouched() {
    let mut ctx = fresh_context();
    let r = calculate(&mut ctx, "let preview_y = 3", false);
    assert!(!r.is_error);
    // the definition must not be visible afterwards
    let r2 = calculate(&mut ctx, "preview_y", true);
    assert!(r2.is_error);
    assert_eq!(r2.error_type.map(|k| k.name()), Some("name"));
}

#[test]
fn dimension_mismatch_classifies_as_typecheck() {
    let mut ctx = fresh_context();
    let r = calculate(&mut ctx, "1 metre + 1 second", true);
    assert!(r.is_error);
    assert_eq!(r.error_type.map(|k| k.name()), Some("typecheck"));
}

#[test]
fn undefined_identifier_classifies_as_name() {
    let mut ctx = fresh_context();
    let r = calculate(&mut ctx, "undeclared_thing + 1", true);
    assert!(r.is_error);
    assert_eq!(r.error_type.map(|k| k.name()), Some("name"));
}

#[test]
fn division_by_zero_classifies_as_runtime() {
    let mut ctx = fresh_context();
    let r = calculate(&mut ctx, "1 / 0", true);
    assert!(r.is_error);
    assert_eq!(r.error_type.map(|k| k.name()), Some("runtime"));
}

#[test]
fn malformed_syntax_classifies_as_parse() {
    let mut ctx = fresh_context();
    let r = calculate(&mut ctx, "1 + * 2", true);
    assert!(r.is_error);
    assert_eq!(r.error_type.map(|k| k.name()), Some("parse"));
}

#[test]
fn failures_still_carry_rendered_output() {
    let mut ctx = fresh_context();
    let r = calculate(&mut ctx, "1 metre + 1 second", true);
    assert!(r.is_error);
    assert!(!r.output.is_empty());
    assert!(r.value.is_none());
    assert!(r.statements.is_empty());
}

#[test]
fn successful_result_is_rendered_as_markup() {
    let mut ctx = fresh_context();
    let r = calculate(&mut ctx, "2 metre", true);
    assert!(!r.is_error);
    assert!(r.error_type.is_none());
    assert!(r.output.contains("numbat-value"));
    assert!(r.output.contains("numbat-unit"));
}

#[test]
fn print_side_output_is_captured() {
    let mut ctx = fresh_context();
    let r = calculate(&mut ctx, "print(\"from the side\")", true);
    assert!(!r.is_error);
    let printed = r.print_output.expect("printed output should be captured");
    assert!(printed.contains("from the side"));
}

#[test]
fn reset_restores_fresh_constants() {
    let mut ctx = fresh_context();
    let before: Vec<String> =
        get_constants(&ctx).into_iter().map(|c| c.name).collect();
    let r = calculate(&mut ctx, "let reset_probe = 7", true);
    assert!(!r.is_error);
    let mutated: Vec<String> =
        get_constants(&ctx).into_iter().map(|c| c.name).collect();
    assert!(mutated.contains(&String::from("reset_probe")));
    reset(&mut ctx);
    let after: Vec<String> =
        get_constants(&ctx).into_iter().map(|c| c.name).collect();
    assert_eq!(before, after);
}

#[test]
fn empty_and_operator_ending_inputs_give_no_completions() {
    let ctx = fresh_context();
    assert!(get_completions(&ctx, "").is_empty());
    assert!(get_completions(&ctx, "3+").is_empty());
}

#[test]
fn completions_carry_the_prefix_and_stay_bounded() {
    let ctx = fresh_context();
    let r = get_completions(&ctx, "len");
    assert!(r.len() <= 6);
    for c in &r {
        assert!(c.starts_with("len"), "candidate {c} lacks the prefix");
    }
}

#[test]
fn unit_catalog_reflects_the_live_state() {
    let ctx = fresh_context();
    let groups = get_units(&ctx);
    assert!(!groups.is_empty());
    let dims: Vec<&str> = groups.iter().map(|g| g.dimension.as_str()).collect();
    let length = dims.iter().position(|d| *d == "Length").expect("Length group");
    let time = dims.iter().position(|d| *d == "Time").expect("Time group");
    assert!(length < time, "priority order puts Length before Time");
    for g in &groups {
        for i in 0..g.units.len() {
            for j in (i + 1)..g.units.len() {
                assert_ne!(g.units[i].display_name, g.units[j].display_name);
            }
        }
    }
}

#[test]
fn function_catalog_is_grouped_and_sorted() {
    let ctx = fresh_context();
    let groups = get_functions(&ctx);
    assert!(!groups.is_empty());
    for w in groups.windows(2) {
        assert!(w[0].module < w[1].module, "labels out of order");
    }
    for g in &groups {
        for w in g.functions.windows(2) {
            assert!(w[0].fn_name <= w[1].fn_name, "function names out of order");
        }
    }
}
