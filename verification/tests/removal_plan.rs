use dctl::constants::{
    DESTRUCTIVE_CONFIRMATION, REMOVAL_BOOL_NO, REMOVAL_LABEL_COMMAND, REMOVAL_LABEL_INCLUDE,
    REMOVAL_LABEL_TARGET, REMOVAL_MODE_DRY_RUN, REMOVAL_MODE_EXECUTE, REMOVAL_STATUS_PLANNED,
};
use dctl::globals::Globals;
use dctl::output::{Format, Units};
use dctl::removal::filters::Filters;
use dctl::removal::plan::{emit, yes_no, Emission, NoOptions, Plan};
use dctl::removal::target::Target;
use dctl::rmdirs::RmdirsOptions;

fn jpegs() -> Filters {
    Filters::resolve(&Globals {
        included: vec!["*.jpg".to_string()],
        ..Globals::default()
    })
    .unwrap()
}

#[test]
fn a_plan_reports_the_request_and_never_a_result() {
    let target = Target::parse("vault:photos").unwrap();
    let options = RmdirsOptions { leave_root: true };
    let plan = Plan::new("delete", &target, true, None, &options);
    assert_eq!(plan.command, "delete");
    assert_eq!(plan.target.path, "photos");
    assert!(plan.dry_run);
    assert!(plan.options.leave_root);
    assert_eq!(plan.status, REMOVAL_STATUS_PLANNED);
}

#[test]
fn absent_filters_are_omitted_entirely() {
    let target = Target::parse("vault:").unwrap();
    let plan = Plan::new("purge", &target, false, None, &NoOptions {});
    assert!(plan.filters.is_none());
    assert_eq!(plan.rows(Units::Binary).len(), 3);
}

#[test]
fn present_filters_are_carried_into_the_document() {
    let target = Target::parse("vault:photos").unwrap();
    let filters = jpegs();
    let plan = Plan::new("delete", &target, false, Some(&filters), &NoOptions {});
    assert_eq!(plan.filters.unwrap().included[0], "*.jpg");
}

#[test]
fn the_text_rows_lead_with_command_target_and_mode() {
    let target = Target::parse("vault:photos").unwrap();
    let filters = jpegs();
    let options = RmdirsOptions { leave_root: false };
    let plan = Plan::new("delete", &target, true, Some(&filters), &options);
    let rows = plan.rows(Units::Binary);

    assert_eq!(rows[0], (REMOVAL_LABEL_COMMAND, "delete".to_string()));
    assert_eq!(rows[1], (REMOVAL_LABEL_TARGET, "vault:photos".to_string()));
    assert_eq!(rows[2].1, REMOVAL_MODE_DRY_RUN);
    assert_eq!(rows[3].0, REMOVAL_LABEL_INCLUDE);
    assert_eq!(rows.last().unwrap().1, REMOVAL_BOOL_NO);
}

#[test]
fn a_real_run_is_labelled_as_one() {
    let target = Target::parse("vault:photos").unwrap();
    let plan = Plan::new("delete", &target, false, None, &NoOptions {});
    assert_eq!(plan.rows(Units::Binary)[2].1, REMOVAL_MODE_EXECUTE);
}

#[test]
fn every_format_renders_without_error() {
    let target = Target::parse("vault:photos").unwrap();
    let plan = Plan::new("delete", &target, true, None, &NoOptions {});
    let text = emit(Format::Text, Units::Binary, &plan);
    assert!(matches!(text, Emission::Table(rows) if rows.len() == 3));
    for format in [Format::Json, Format::JsonLines] {
        assert!(matches!(emit(format, Units::Binary, &plan), Emission::Document));
    }
}

#[test]
fn flags_render_with_the_prompt_vocabulary() {
    assert_eq!(yes_no(true), DESTRUCTIVE_CONFIRMATION);
    assert_ne!(yes_no(false), yes_no(true));
}
