use kbism::defs::{staff_kind, BudgetField, StaffRole};
use kbism::hash::fnv1a;
use kbism::ids::{CohortId, DistrictId, FacilityId, NationId, PersonId, Subject, Target, ThreadId};
use kbism::order::sort_ranked;
use kbism::save::{autosave_slot, check_format_version, slot_path, AutosaveCounter, SaveError, FORMAT_VERSION};
use kbism::world::{fit_distance_row, is_productive, latest_story, FacilityKind, HistoryEntry, Occupation, DEFAULT_DISTANCE};
use kbism::calendar::Date;

#[test]
fn fnv1a_known_values() {
    assert_eq!(fnv1a(b""), 0xcbf2_9ce4_8422_2325);
    assert_eq!(fnv1a(b"a"), 0xaf63_dc4c_8601_ec8c);
    assert_eq!(fnv1a(b"foobar"), 0x8594_4171_f739_67e8);
    assert_eq!(fnv1a("年".as_bytes()), 0x1a5f_d51b_669d_855d);
}

#[test]
fn fnv1a_same_bytes_same_hash() {
    let a = String::from("(year:1,doy:2)");
    let b = String::from("(year:1,doy:2)");
    assert_eq!(fnv1a(a.as_bytes()), fnv1a(b.as_bytes()));
    assert_ne!(fnv1a(b"(year:1,doy:2)"), fnv1a(b"(year:1,doy:3)"));
}

#[test]
fn ids_round_trip_through_indices() {
    assert_eq!(DistrictId::from_index(7).index(), 7);
    assert_eq!(PersonId::from_index(0).index(), 0);
    assert_eq!(FacilityId::from_index(65535), FacilityId(65535));
    assert_eq!(ThreadId(3).index(), 3);
}

#[test]
fn cohort_id_keeps_district_and_index() {
    let c = CohortId::new(DistrictId(4), 2);
    assert_eq!(c.district, DistrictId(4));
    assert_eq!(c.index, 2);
    let wrapped = CohortId::new(DistrictId(1), 65537);
    assert_eq!(wrapped.index, 1);
}

#[test]
fn target_district_and_subject() {
    let c = CohortId::new(DistrictId(3), 1);
    assert_eq!(Target::District(DistrictId(2)).district(), Some(DistrictId(2)));
    assert_eq!(Target::Cohort(c).district(), Some(DistrictId(3)));
    assert_eq!(Target::Person(PersonId(9)).district(), None);
    assert_eq!(Target::Nation.district(), None);
    assert_eq!(Target::Nation.as_subject(), Subject::Nation(NationId(0)));
    assert_eq!(Target::Cohort(c).as_subject(), Subject::Cohort(c));
    assert_eq!(Target::Facility(FacilityId(5)).as_subject(), Subject::Facility(FacilityId(5)));
}

#[test]
fn sort_ranked_orders_by_key_then_identifier() {
    let v = vec![(5u64, 2u64), (9, 7), (5, 1), (0, 0), (9, 3)];
    assert_eq!(sort_ranked(&v), vec![(9, 3), (9, 7), (5, 1), (5, 2), (0, 0)]);
    assert_eq!(sort_ranked(&Vec::new()), Vec::<(u64, u64)>::new());
}

#[test]
fn occupation_order_and_names() {
    for (i, o) in Occupation::ALL.iter().enumerate() {
        assert_eq!(o.index(), i);
    }
    assert_eq!(Occupation::Farmer.name(), "Farmer");
    assert_eq!(Occupation::Retired.name(), "Retired");
    assert_eq!(Occupation::ALL.len(), 12);
}

#[test]
fn productive_occupations() {
    let productive: Vec<Occupation> =
        Occupation::ALL.iter().copied().filter(|o| is_productive(*o)).collect();
    assert_eq!(productive.len(), 8);
    assert!(!is_productive(Occupation::Student));
    assert!(!is_productive(Occupation::Caregiver));
    assert!(!is_productive(Occupation::Athlete));
    assert!(!is_productive(Occupation::Retired));
    assert!(is_productive(Occupation::Coach));
}

#[test]
fn staff_roles_and_budget_fields_are_indexed_in_order() {
    for (i, r) in StaffRole::ALL.iter().enumerate() {
        assert_eq!(r.index(), i);
    }
    for (i, f) in BudgetField::ALL.iter().enumerate() {
        assert_eq!(f.index(), i);
    }
    assert_eq!(staff_kind(StaffRole::Coach), FacilityKind::Dojo);
    assert_eq!(staff_kind(StaffRole::Medic), FacilityKind::Hospital);
    assert_eq!(staff_kind(StaffRole::Nursery), FacilityKind::Nursery);
    assert_eq!(staff_kind(StaffRole::Official), FacilityKind::PaymentVenue);
    assert_eq!(staff_kind(StaffRole::Builder), FacilityKind::Housing);
}

#[test]
fn latest_story_takes_the_last_resolved_or_completed_entry() {
    let h = |k: &str, d: &str| HistoryEntry {
        date: Date::new(1, 1),
        text_key: k.to_string(),
        detail: d.to_string(),
    };
    assert_eq!(latest_story(&vec![]), "");
    let hist = vec![
        h("history.issue_resolved", "first"),
        h("history.project_done", "second"),
        h("history.cap", "third"),
    ];
    assert_eq!(latest_story(&hist), "second");
    assert_eq!(latest_story(&vec![h("history.cap", "x")]), "");
}

#[test]
fn slot_names_and_autosave_rotation() {
    assert_eq!(slot_path("slot1"), "slot1.ron");
    assert_eq!(autosave_slot(0), "auto0");
    assert_eq!(autosave_slot(1), "auto1");
    assert_eq!(autosave_slot(2), "auto2");
    assert_eq!(autosave_slot(3), "auto0");
    assert_eq!(autosave_slot(u32::MAX), "auto0");
    for i in 0..30u32 {
        assert_eq!(autosave_slot(i), autosave_slot(i + 3));
        assert_ne!(autosave_slot(i), autosave_slot(i + 1));
    }
}

#[test]
fn format_version_must_match() {
    assert!(check_format_version(FORMAT_VERSION).is_ok());
    match check_format_version(2) {
        Err(SaveError::Incompatible { found, expected }) => {
            assert_eq!(found, 2);
            assert_eq!(expected, FORMAT_VERSION);
        }
        _ => panic!("a newer format must be refused"),
    }
}

#[test]
fn save_errors_describe_themselves() {
    assert_eq!(SaveError::Encode("bad".into()).describe(), "encode: bad");
    assert_eq!(SaveError::Decode("eof".into()).describe(), "decode: eof");
    assert_eq!(
        SaveError::Incompatible { found: 3, expected: 1 }.describe(),
        "incompatible save: found 3, expected 1"
    );
    let io = SaveError::Io(std::io::Error::new(std::io::ErrorKind::NotFound, "missing"));
    assert_eq!(io.describe(), "io: missing");
}

#[test]
fn autosave_counter_walks_the_three_slots() {
    let mut c = AutosaveCounter::default();
    let slots: Vec<String> = (0..5).map(|_| c.next_slot()).collect();
    assert_eq!(slots, vec!["auto0", "auto1", "auto2", "auto0", "auto1"]);
    assert_eq!(c, AutosaveCounter(5));
}

#[test]
fn budget_fields_have_text_keys() {
    assert_eq!(BudgetField::Education.text_key(), "ui.field.education");
    assert_eq!(BudgetField::PublicTeams.text_key(), "ui.field.public_teams");
    assert_eq!(BudgetField::Reserve.text_key(), "ui.field.reserve");
    let keys: Vec<&str> = BudgetField::ALL.iter().map(|f| f.text_key()).collect();
    for (i, k) in keys.iter().enumerate() {
        assert!(k.starts_with("ui.field."));
        assert!(!keys[..i].contains(k));
    }
}

#[test]
fn distance_rows_are_padded_with_the_default_and_cut_to_size() {
    let mut short = vec![0u8, 30];
    fit_distance_row(&mut short, 4);
    assert_eq!(short, vec![0, 30, 90, 90]);
    assert_eq!(DEFAULT_DISTANCE, 90);
    let mut long = vec![0u8, 15, 40, 55];
    fit_distance_row(&mut long, 2);
    assert_eq!(long, vec![0, 15]);
}
