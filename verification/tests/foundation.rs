//! Texts, numbers, orders, names, views and write pressure.
use radixdb_engine::error::Error;
use radixdb_engine::identity::compaction_job_signature;
use radixdb_engine::identity::runtime_owner_id;
use radixdb_engine::model::duplicate_all;
use radixdb_engine::model::same_all;
use radixdb_engine::names::NameMap;
use radixdb_engine::num::saturating_mul_64;
use radixdb_engine::num::saturating_mul_size;
use radixdb_engine::pressure::classify_l0_pressure;
use radixdb_engine::pressure::hot_seal_pressure_exceeded;
use radixdb_engine::pressure::hot_storage_requires_backpressure;
use radixdb_engine::pressure::l0_pressure_limits;
use radixdb_engine::pressure::l0_soft_pressure_exceeded;
use radixdb_engine::pressure::pressure_seal_cycle_outcome;
use radixdb_engine::pressure::total_hot_hard_threshold;
use radixdb_engine::pressure::total_hot_soft_threshold;
use radixdb_engine::pressure::touched_tables_exceed_seal_pressure;
use radixdb_engine::pressure::wait_for_compaction_pressure;
use radixdb_engine::pressure::AdmissionStep;
use radixdb_engine::pressure::BackpressureCounters;
use radixdb_engine::pressure::HotTable;
use radixdb_engine::pressure::L0DebtSnapshot;
use radixdb_engine::pressure::L0PressureLevel;
use radixdb_engine::pressure::PressureSealControl;
use radixdb_engine::pressure::PressureSealCycleOutcome;
use radixdb_engine::pressure::TableDebt;
use radixdb_engine::sort::order_of;
use radixdb_engine::sort::sorted;
use radixdb_engine::sort::sorted_unique_ids;
use radixdb_engine::sort::sorted_unique_names;
use radixdb_engine::text::clip;
use radixdb_engine::text::conventional_segment_file_path;
use radixdb_engine::text::decimal;
use radixdb_engine::text::eq_ignore_ascii_case;
use radixdb_engine::text::is_blank_text;
use radixdb_engine::text::is_text_before;
use radixdb_engine::text::join;
use radixdb_engine::text::signed_decimal;
use radixdb_engine::text::to_lowercase_cow;
use radixdb_engine::view::checked_u16_len;
use radixdb_engine::view::validate_bound_view_dependencies;
use radixdb_engine::view::ViewDefinition;

fn strings(items: &[&str]) -> Vec<String> {
    items.iter().map(|item| item.to_string()).collect()
}

fn internal_text(error: &Error) -> &str {
    match error {
        Error::Internal { message } => message.as_str(),
        other => panic!("not an internal error: {other:?}"),
    }
}

fn debt(segments: u64, physical_bytes: u64) -> L0DebtSnapshot {
    L0DebtSnapshot { segments, physical_bytes }
}

#[test]
fn lower_case_is_borrowed_where_nothing_changes() {
    assert_eq!(to_lowercase_cow("orders"), "orders");
    assert!(matches!(to_lowercase_cow("orders"), std::borrow::Cow::Borrowed(_)));
    assert_eq!(to_lowercase_cow("Orders_2"), "orders_2");
    assert_eq!(to_lowercase_cow("ÀB"), "àb");
    assert_eq!(to_lowercase_cow("É"), "é");
    assert!(matches!(to_lowercase_cow("é"), std::borrow::Cow::Borrowed(_)));
}

#[test]
fn decimals_have_no_leading_zero() {
    assert_eq!(decimal(0), "0");
    assert_eq!(decimal(10), "10");
    assert_eq!(decimal(u64::MAX), "18446744073709551615");
    assert_eq!(signed_decimal(-7), "-7");
    assert_eq!(signed_decimal(i64::MIN), "-9223372036854775808");
}

#[test]
fn texts_are_ordered_by_their_bytes() {
    assert!(is_text_before("a", "b"));
    assert!(is_text_before("a", "ab"));
    assert!(is_text_before("", "a"));
    assert!(!is_text_before("b", "a"));
    assert!(!is_text_before("a", "a"));
    assert!(is_text_before("Z", "a"));
    assert!(eq_ignore_ascii_case("Users", "uSERS"));
    assert!(!eq_ignore_ascii_case("Users", "user"));
}

#[test]
fn texts_are_clipped_joined_and_tested_for_blanks() {
    assert_eq!(clip("abcdef", 3), "abc");
    assert_eq!(clip("äöü", 2), "äö");
    assert_eq!(clip("ab", 3), "ab");
    assert_eq!(join(&strings(&["a", "b", "c"]), ", "), "a, b, c");
    assert_eq!(join(&strings(&[]), ", "), "");
    assert!(is_blank_text(" \t\n"));
    assert!(is_blank_text(""));
    assert!(!is_blank_text(" x "));
}

#[test]
fn segment_paths_carry_sixteen_digits() {
    assert_eq!(conventional_segment_file_path("t", 255), "t/segment_00000000000000ff.data");
    assert_eq!(conventional_segment_file_path("", 255), "segment_00000000000000ff.data");
    assert_eq!(conventional_segment_file_path("t/", 1), "t/segment_0000000000000001.data");
}

#[test]
fn products_stop_at_the_largest_number() {
    assert_eq!(saturating_mul_size(6, 7), 42);
    assert_eq!(saturating_mul_size(usize::MAX, 2), usize::MAX);
    assert_eq!(saturating_mul_64(u64::MAX / 2, 3), u64::MAX);
    assert_eq!(saturating_mul_64(0, u64::MAX), 0);
}

#[test]
fn sorting_keeps_every_item() {
    assert_eq!(sorted(vec![3_u64, 1, 2, 1]), vec![1, 1, 2, 3]);
    assert_eq!(sorted(strings(&["b", "a"])), strings(&["a", "b"]));
    assert_eq!(sorted_unique_names(strings(&["b", "a", "b"])), strings(&["a", "b"]));
    assert_eq!(sorted_unique_ids(vec![5, -1, 5]), vec![-1, 5]);
    assert_eq!(order_of(vec![30_u64, 10, 20]), vec![1, 2, 0]);
    assert_eq!(sorted(vec![(2_u64, 1_u64), (1, 9)]), vec![(1, 9), (2, 1)]);
}

#[test]
fn contents_are_duplicated_and_compared() {
    let names = strings(&["x", "y"]);
    let copy = duplicate_all(&names);
    assert!(same_all(&names, &copy));
    assert!(!same_all(&names, &strings(&["x"])));
    assert!(!same_all(&names, &strings(&["x", "z"])));
}

#[test]
fn names_are_bound_once() {
    let mut map: NameMap<u32> = NameMap::new();
    assert_eq!(map.insert("a".to_string(), 1), None);
    assert_eq!(map.insert("b".to_string(), 2), None);
    assert_eq!(map.insert("a".to_string(), 3), Some(1));
    assert_eq!(map.len(), 2);
    assert_eq!(map.get("a"), Some(&3));
    assert_eq!(map.remove("a"), Some(3));
    assert_eq!(map.get("a"), None);
    assert!(map.contains_key("b"));
    assert_eq!(map.name_at(0), "b");
    assert_eq!(map.value_at(0), &2);
    assert_eq!(map.remove("a"), None);
}

#[test]
fn owner_identity_is_fnv_1a() {
    assert_eq!(runtime_owner_id(""), 0xcbf29ce484222325);
    assert_eq!(runtime_owner_id("a"), 0xaf63dc4c8601ec8c);
    assert_eq!(runtime_owner_id("foobar"), 0x85944171f73967e8);
}

#[test]
fn job_signature_depends_on_every_part() {
    let base = compaction_job_signature("t", 3, &vec![1, 2]);
    assert_ne!(base, 0);
    assert_eq!(base, compaction_job_signature("t", 3, &vec![1, 2]));
    assert_ne!(base, compaction_job_signature("u", 3, &vec![1, 2]));
    assert_ne!(base, compaction_job_signature("t", 4, &vec![1, 2]));
    assert_ne!(base, compaction_job_signature("t", 3, &vec![2, 1]));
    assert_eq!(compaction_job_signature("a", 0, &vec![]), 0xaf63dc4c8601ec8c);
    assert_eq!(
        compaction_job_signature("a", 0, &vec![5]),
        0xaf63dc4c8601ec8c_u64.wrapping_mul(0x100000001b3).wrapping_add(5)
    );
}

#[test]
fn hot_thresholds_are_multiples_of_the_first_seal() {
    assert_eq!(total_hot_soft_threshold(10), 40);
    assert_eq!(total_hot_hard_threshold(10), 80);
    assert_eq!(total_hot_hard_threshold(usize::MAX), usize::MAX);
    assert!(total_hot_soft_threshold(7) < total_hot_hard_threshold(7));
}

#[test]
fn waiting_commit_is_released_by_one_cycle() {
    let mut control = PressureSealControl::new();
    assert_eq!(control.wait_before_commit(), None);
    control.worker_started();
    control.request();
    let ticket = control.wait_before_commit().expect("a worker serves the request");
    assert!(!control.may_proceed(ticket));
    control.finish_cycle(true);
    assert!(control.may_proceed(ticket));
    let again = control.wait_before_commit().expect("still requested");
    control.worker_stopped();
    assert!(control.may_proceed(again));
}

#[test]
fn superseded_cycle_gives_up_its_request() {
    assert!(!PressureSealCycleOutcome::Superseded.keeps_request_armed(true));
    assert!(PressureSealCycleOutcome::Completed.keeps_request_armed(true));
    assert!(!PressureSealCycleOutcome::Completed.keeps_request_armed(false));
    assert_eq!(
        pressure_seal_cycle_outcome(false, true, false),
        PressureSealCycleOutcome::Idle
    );
    assert_eq!(
        pressure_seal_cycle_outcome(true, false, false),
        PressureSealCycleOutcome::Idle
    );
    assert_eq!(
        pressure_seal_cycle_outcome(true, true, false),
        PressureSealCycleOutcome::Completed
    );
    assert_eq!(
        pressure_seal_cycle_outcome(true, true, true),
        PressureSealCycleOutcome::Superseded
    );
}

#[test]
fn segment_debt_is_classified_by_both_limits() {
    let limits = l0_pressure_limits(4, 8, 100, 200, 50);
    assert_eq!(classify_l0_pressure(debt(3, 99), limits), L0PressureLevel::Normal);
    assert_eq!(classify_l0_pressure(debt(4, 0), limits), L0PressureLevel::Soft);
    assert_eq!(classify_l0_pressure(debt(0, 100), limits), L0PressureLevel::Soft);
    assert_eq!(classify_l0_pressure(debt(8, 0), limits), L0PressureLevel::Hard);
    assert_eq!(classify_l0_pressure(debt(0, 200), limits), L0PressureLevel::Hard);
    assert!(l0_soft_pressure_exceeded(&vec![debt(0, 0), debt(5, 0)], limits));
    assert!(!l0_soft_pressure_exceeded(&vec![debt(1, 1)], limits));
}

#[test]
fn unusable_limits_are_raised() {
    let limits = l0_pressure_limits(0, 0, 0, 0, 0);
    assert_eq!((limits.soft_segments, limits.hard_segments), (1, 2));
    assert_eq!((limits.soft_bytes, limits.hard_bytes), (1, 2));
    let wide = l0_pressure_limits(9, 3, u64::MAX, 1, 7);
    assert_eq!((wide.soft_segments, wide.hard_segments), (9, 10));
    assert_eq!((wide.soft_bytes, wide.hard_bytes), (u64::MAX, u64::MAX));
    assert_eq!(wide.soft_wait_millis, 7);
}

#[test]
fn commit_waits_softly_and_is_refused_hard() {
    let limits = l0_pressure_limits(2, 4, 1000, 2000, 50);
    let mut counters = BackpressureCounters { soft_waits: 0, soft_wait_millis: 0, hard_rejections: 0 };
    let mut waited = false;
    let soft = vec![TableDebt { table: "t".to_string(), debt: debt(2, 0) }];
    let (step, compact) =
        wait_for_compaction_pressure(&soft, limits, 10, &mut waited, &mut counters);
    assert!(matches!(step, AdmissionStep::Wait));
    assert!(compact && waited);
    let (step, _) = wait_for_compaction_pressure(&soft, limits, 50, &mut waited, &mut counters);
    assert!(matches!(step, AdmissionStep::Admit));
    assert_eq!((counters.soft_waits, counters.soft_wait_millis), (1, 50));

    let hard = vec![
        TableDebt { table: "a".to_string(), debt: debt(1, 0) },
        TableDebt { table: "b".to_string(), debt: debt(9, 5) },
    ];
    let mut fresh = false;
    let (step, compact) = wait_for_compaction_pressure(&hard, limits, 0, &mut fresh, &mut counters);
    assert!(compact);
    match step {
        AdmissionStep::Reject(Error::CompactionBackpressure {
            table,
            segments,
            physical_bytes,
            hard_segments,
            hard_bytes,
        }) => {
            assert_eq!(table, "b");
            assert_eq!((segments, physical_bytes, hard_segments, hard_bytes), (9, 5, 4, 2000));
        }
        other => panic!("unexpected step: {other:?}"),
    }
    assert_eq!(counters.hard_rejections, 1);

    let calm = vec![TableDebt { table: "t".to_string(), debt: debt(0, 0) }];
    let (step, compact) = wait_for_compaction_pressure(&calm, limits, 0, &mut fresh, &mut counters);
    assert!(matches!(step, AdmissionStep::Admit));
    assert!(!compact);
}

#[test]
fn hot_tables_are_measured_by_their_state() {
    let fresh = HotTable { hot_bytes: 50, has_segments: false };
    let old = HotTable { hot_bytes: 50, has_segments: true };
    assert!(!hot_seal_pressure_exceeded(&vec![fresh], 100, 40));
    assert!(hot_seal_pressure_exceeded(&vec![old], 100, 40));
    let many = vec![fresh; 9];
    assert!(hot_seal_pressure_exceeded(&many, 100, 1000));
    assert!(!hot_storage_requires_backpressure(&many, 100, 1000));
    assert!(hot_storage_requires_backpressure(&vec![fresh; 17], 100, 1000));
    assert!(!touched_tables_exceed_seal_pressure(&many, false, &vec![], 100, 1000));
    assert!(touched_tables_exceed_seal_pressure(&vec![old], true, &vec![old], 100, 40));
}

#[test]
fn view_round_trips_through_its_bytes() {
    let view = ViewDefinition::from_bound_query(
        "Recent",
        "SELECT * FROM orders".to_string(),
        strings(&["orders", "users"]),
    )
    .expect("a bound view");
    assert_eq!(view.name, "recent");
    assert_eq!(view.original_name, "Recent");
    let bytes = view.serialize().expect("encodable");
    assert_eq!(&bytes[..4], b"RVW2");
    assert_eq!(&bytes[4..6], &[6, 0]);
    let back = ViewDefinition::deserialize(&bytes, |query: &str| {
        assert_eq!(query, "SELECT * FROM orders");
        Ok(strings(&["orders", "users"]))
    })
    .expect("decodable");
    assert_eq!(back.original_name, "Recent");
    assert_eq!(back.query, "SELECT * FROM orders");
    assert_eq!(back.dependencies, strings(&["orders", "users"]));
    assert_eq!(back.serialize().expect("encodable"), bytes);
    let mut stale = back;
    stale.query = "SELECT * FROM users".to_string();
    assert!(stale.serialize().is_err());
}

#[test]
fn view_bytes_are_checked() {
    let bind = |_: &str| Ok(Vec::new());
    let error = ViewDefinition::deserialize(b"XXXX", bind).expect_err("no marker");
    assert_eq!(
        internal_text(&error),
        "unsupported unversioned view definition; expected RVW1/RVW2 marker"
    );
    let error = ViewDefinition::deserialize(b"RVW2", bind).expect_err("no name length");
    assert_eq!(internal_text(&error), "invalid view: missing name length");
    let error = ViewDefinition::deserialize(b"RVW2\x05\x00ab", bind).expect_err("short name");
    assert_eq!(internal_text(&error), "invalid view: missing name");
    let error = ViewDefinition::deserialize(b"RVW2\x01\x00\xff", bind).expect_err("no UTF-8");
    assert!(internal_text(&error).starts_with("invalid view name: "));
    assert!(internal_text(&error).contains("utf-8"));
}

#[test]
fn first_version_binds_its_dependencies() {
    let mut bytes = b"RVW1\x01\x00v".to_vec();
    bytes.extend_from_slice(&8_u32.to_le_bytes());
    bytes.extend_from_slice(b"SELECT 1");
    let back = ViewDefinition::deserialize(&bytes, |_: &str| Ok(strings(&["a"])))
        .expect("a view without listed dependencies");
    assert_eq!(back.name, "v");
    assert_eq!(back.dependencies, strings(&["a"]));
}

#[test]
fn bound_dependencies_are_ordered_names() {
    assert!(validate_bound_view_dependencies(&strings(&["a", "b"])).is_ok());
    assert!(validate_bound_view_dependencies(&strings(&["b", "a"])).is_err());
    assert!(validate_bound_view_dependencies(&strings(&["a", "a"])).is_err());
    assert!(ViewDefinition::from_bound_query("v", "  ".to_string(), Vec::new()).is_err());
    assert!(checked_u16_len("name", 65_535).is_ok());
    assert!(checked_u16_len("name", 65_536).is_err());
}
