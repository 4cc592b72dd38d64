use decaydata::cli::Cli;
use decaydata::ident::{parse_nuclide, IsomerState, NuclideIdentifier, ParseError};
use decaydata::mcnp::card_records;
use decaydata::nuclide::{
    expand_elements, parse_nuclides, request_names, retain_resolved, sort_nuclides_by_name,
    DecayError, NuclideData, NORM_DENOM,
};
use decaydata::records::DecayRecord;
use decaydata::resolve::{energy_ladder, resolve_records, target_energy};
use decaydata::wrappers::{CliRadType, Property};

fn rec(p: Option<u64>, e: Option<u64>, i: Option<u64>) -> DecayRecord {
    DecayRecord { p_energy: p, energy: e, intensity: i, parent_name: String::from("Co60") }
}

fn ident(symbol: (char, Option<char>), isotope: u32, state: IsomerState) -> NuclideIdentifier {
    NuclideIdentifier { symbol, isotope, state }
}

fn data(name: &str, id: NuclideIdentifier, records: Vec<DecayRecord>) -> NuclideData {
    NuclideData { name: String::from(name), nuclide: id, records }
}

fn cli_for(tokens: &[&str]) -> Cli {
    Cli {
        nuclides: tokens.iter().map(|t| String::from(*t)).collect(),
        rad: CliRadType::Gamma,
        sort: Property::Energy,
        fetch: false,
        output: String::from("decay_data"),
        text: false,
        json: false,
        mcnp: false,
        id: 100,
        csv: false,
        verbose: 0,
        quiet: false,
        no_colour: false,
    }
}

// keV expressed in the library's micro-keV fixed point
const KEV: u64 = 1_000_000;

#[test]
fn parses_ground_state_forms() {
    let expected = ident(('C', Some('o')), 60, IsomerState::Ground);
    assert_eq!(parse_nuclide("co60"), Ok(expected));
    assert_eq!(parse_nuclide("Co60"), Ok(expected));
    assert_eq!(parse_nuclide("CO60"), Ok(expected));
    assert_eq!(parse_nuclide("Co60m0"), Ok(expected));
}

#[test]
fn parses_excited_state_forms() {
    let expected = ident(('C', Some('o')), 60, IsomerState::Excited(1));
    assert_eq!(parse_nuclide("co60m"), Ok(expected));
    assert_eq!(parse_nuclide("co60m1"), Ok(expected));
    assert_eq!(parse_nuclide("co60*"), Ok(expected));
    assert_eq!(
        parse_nuclide("ag108m"),
        Ok(ident(('A', Some('g')), 108, IsomerState::Excited(1)))
    );
    assert_eq!(
        parse_nuclide("co60m2"),
        Ok(ident(('C', Some('o')), 60, IsomerState::Excited(2)))
    );
}

#[test]
fn parses_whole_element() {
    assert_eq!(parse_nuclide("co"), Ok(ident(('C', Some('o')), 0, IsomerState::Ground)));
    assert_eq!(parse_nuclide("U"), Ok(ident(('U', None), 0, IsomerState::Ground)));
}

#[test]
fn rejects_unknown_elements() {
    assert_eq!(parse_nuclide("zz60"), Err(ParseError::UnknownElement));
    assert_eq!(parse_nuclide("com"), Err(ParseError::UnknownElement));
    assert_eq!(parse_nuclide(""), Err(ParseError::UnknownElement));
    assert_eq!(parse_nuclide("*"), Err(ParseError::UnknownElement));
}

#[test]
fn rejects_malformed_mass_and_state() {
    assert_eq!(parse_nuclide("co99999999999"), Err(ParseError::MalformedMass));
    assert_eq!(parse_nuclide("co60x9"), Err(ParseError::MalformedState));
    assert_eq!(parse_nuclide("co60*1"), Err(ParseError::MalformedState));
    assert_eq!(parse_nuclide("co60m99999999999"), Err(ParseError::MalformedState));
}

#[test]
fn names_carry_state_suffix() {
    let g = ident(('C', Some('o')), 60, IsomerState::Ground);
    let m1 = ident(('C', Some('o')), 60, IsomerState::Excited(1));
    let el = ident(('U', None), 0, IsomerState::Ground);
    assert_eq!(g.name_with_state(), "Co60");
    assert_eq!(m1.name_with_state(), "Co60m1");
    assert_eq!(m1.name(), "Co60");
    assert_eq!(el.name_with_state(), "U");
    let big = ident(('A', Some('g')), 108, IsomerState::Excited(12));
    assert_eq!(big.name_with_state(), "Ag108m12");
}

#[test]
fn ladder_is_sorted_and_distinct() {
    let pool = vec![
        rec(Some(300 * KEV), None, None),
        rec(Some(0), None, None),
        rec(Some(150 * KEV), None, None),
        rec(Some(150 * KEV), None, None),
        rec(None, None, None),
    ];
    let lad = energy_ladder(&pool);
    assert_eq!(lad, vec![0, 150 * KEV, 300 * KEV]);
}

#[test]
fn ladder_off_by_one_with_ground_entry() {
    // ladder [0.0, 150.0, 300.0] keV
    let pool = vec![
        rec(Some(0), Some(1 * KEV), None),
        rec(Some(150 * KEV), Some(2 * KEV), None),
        rec(Some(300 * KEV), Some(3 * KEV), None),
        rec(Some(0), Some(4 * KEV), None),
    ];
    // ground state picks the zero-energy group
    let ground = resolve_records(pool.clone(), 0);
    assert_eq!(ground.len(), 2);
    assert!(ground.iter().all(|r| r.p_energy == Some(0)));
    // state index 2 picks the 300 keV group
    let second = resolve_records(pool.clone(), 2);
    assert_eq!(second.len(), 1);
    assert_eq!(second[0].p_energy, Some(300 * KEV));
    // state index 3 is off the ladder
    let third = resolve_records(pool, 3);
    assert!(third.is_empty());
}

#[test]
fn no_ground_state_shifts_the_ladder() {
    // ladder [150.0, 300.0] keV with no zero entry
    let pool = vec![
        rec(Some(150 * KEV), Some(1 * KEV), None),
        rec(Some(300 * KEV), Some(2 * KEV), None),
    ];
    assert!(resolve_records(pool.clone(), 0).is_empty());
    let first = resolve_records(pool.clone(), 1);
    assert_eq!(first.len(), 1);
    assert_eq!(first[0].p_energy, Some(150 * KEV));
    let second = resolve_records(pool.clone(), 2);
    assert_eq!(second.len(), 1);
    assert_eq!(second[0].p_energy, Some(300 * KEV));
    assert!(resolve_records(pool, 3).is_empty());
}

#[test]
fn unknown_parent_energy_is_kept() {
    let pool = vec![
        rec(Some(0), Some(1 * KEV), None),
        rec(None, Some(2 * KEV), None),
        rec(Some(150 * KEV), Some(3 * KEV), None),
    ];
    let ground = resolve_records(pool, 0);
    assert_eq!(ground.len(), 2);
    assert_eq!(ground[0].p_energy, Some(0));
    assert_eq!(ground[1].p_energy, None);
}

#[test]
fn resolution_is_idempotent() {
    let pool = vec![
        rec(Some(0), Some(1 * KEV), Some(10_000_000)),
        rec(Some(150 * KEV), Some(2 * KEV), None),
        rec(None, Some(3 * KEV), None),
    ];
    let once = resolve_records(pool.clone(), 0);
    let twice = resolve_records(pool, 0);
    assert_eq!(once.len(), twice.len());
    for (a, b) in once.iter().zip(twice.iter()) {
        assert_eq!(a.p_energy, b.p_energy);
        assert_eq!(a.energy, b.energy);
        assert_eq!(a.intensity, b.intensity);
    }
}

#[test]
fn partition_invariant_holds() {
    let pool = vec![
        rec(Some(0), Some(1 * KEV), None),
        rec(Some(150 * KEV), Some(2 * KEV), None),
        rec(None, Some(3 * KEV), None),
        rec(Some(300 * KEV), Some(4 * KEV), None),
    ];
    let lad = energy_ladder(&pool);
    for index in 0..4usize {
        let target = target_energy(&lad, index);
        let selected = resolve_records(pool.clone(), index);
        for r in &selected {
            assert!(r.p_energy.is_none() || r.p_energy == target);
        }
    }
}

#[test]
fn norm_matches_expected_fraction() {
    // intensities 40.0 %, 35.0 %, unobserved
    let d = data(
        "Co60",
        ident(('C', Some('o')), 60, IsomerState::Ground),
        vec![
            rec(Some(0), Some(1 * KEV), Some(40_000_000)),
            rec(Some(0), Some(2 * KEV), Some(35_000_000)),
            rec(Some(0), Some(3 * KEV), None),
        ],
    );
    let num = d.norm();
    assert_eq!(num, 75_000_000);
    assert_eq!(num as f64 / NORM_DENOM as f64, 0.75);
}

#[test]
fn sort_by_energy_puts_unset_first() {
    let mut d = data(
        "Co60",
        ident(('C', Some('o')), 60, IsomerState::Ground),
        vec![
            rec(Some(0), Some(5 * KEV), Some(1)),
            rec(Some(0), None, Some(2)),
            rec(Some(0), Some(1 * KEV), Some(3)),
        ],
    );
    d.sort_records(&Property::Energy);
    assert_eq!(d.records[0].energy, None);
    assert_eq!(d.records[1].energy, Some(1 * KEV));
    assert_eq!(d.records[2].energy, Some(5 * KEV));
}

#[test]
fn sort_by_intensity_puts_unset_last() {
    let mut d = data(
        "Co60",
        ident(('C', Some('o')), 60, IsomerState::Ground),
        vec![
            rec(Some(0), Some(1 * KEV), Some(10)),
            rec(Some(0), Some(2 * KEV), None),
            rec(Some(0), Some(3 * KEV), Some(90)),
        ],
    );
    d.sort_records(&Property::Intensity);
    assert_eq!(d.records[0].intensity, Some(90));
    assert_eq!(d.records[1].intensity, Some(10));
    assert_eq!(d.records[2].intensity, None);
}

#[test]
fn sorts_are_stable_on_equal_keys() {
    // equal energies: the original relative order must survive
    let mut d = data(
        "Co60",
        ident(('C', Some('o')), 60, IsomerState::Ground),
        vec![
            rec(Some(0), Some(2 * KEV), Some(111)),
            rec(Some(0), Some(1 * KEV), Some(222)),
            rec(Some(0), Some(2 * KEV), Some(333)),
            rec(Some(0), Some(1 * KEV), Some(444)),
        ],
    );
    d.sort_records(&Property::Energy);
    assert_eq!(d.records[0].intensity, Some(222));
    assert_eq!(d.records[1].intensity, Some(444));
    assert_eq!(d.records[2].intensity, Some(111));
    assert_eq!(d.records[3].intensity, Some(333));

    let mut e = data(
        "Co60",
        ident(('C', Some('o')), 60, IsomerState::Ground),
        vec![
            rec(Some(0), Some(1 * KEV), Some(50)),
            rec(Some(0), Some(2 * KEV), Some(50)),
            rec(Some(0), Some(3 * KEV), Some(70)),
        ],
    );
    e.sort_records(&Property::Intensity);
    assert_eq!(e.records[0].intensity, Some(70));
    assert_eq!(e.records[1].energy, Some(1 * KEV));
    assert_eq!(e.records[2].energy, Some(2 * KEV));
}

#[test]
fn duplicate_tokens_collapse() {
    let cli = cli_for(&["Co60", "co60", "CO60"]);
    let available: Vec<NuclideIdentifier> = Vec::new();
    let list = parse_nuclides(&cli, &available).expect("one nuclide expected");
    assert_eq!(list.len(), 1);
    assert_eq!(list[0].name, "Co60");
    assert!(list[0].records.is_empty());
}

#[test]
fn invalid_tokens_are_dropped_not_fatal() {
    let cli = cli_for(&["zz99", "co60", "not a nuclide"]);
    let available: Vec<NuclideIdentifier> = Vec::new();
    let list = parse_nuclides(&cli, &available).expect("one nuclide expected");
    assert_eq!(list.len(), 1);
    assert_eq!(list[0].name, "Co60");
}

#[test]
fn all_invalid_tokens_report_no_data() {
    let cli = cli_for(&["zz99", "qq1", ""]);
    let available: Vec<NuclideIdentifier> = Vec::new();
    assert_eq!(parse_nuclides(&cli, &available), Err(DecayError::NoDataFound));
}

#[test]
fn whole_element_expands_to_listed_isotopes() {
    let cli = cli_for(&["co"]);
    let available = vec![
        ident(('C', Some('o')), 57, IsomerState::Ground),
        ident(('C', Some('s')), 137, IsomerState::Ground),
        ident(('C', Some('o')), 60, IsomerState::Ground),
    ];
    let list = parse_nuclides(&cli, &available).expect("two isotopes expected");
    assert_eq!(list.len(), 2);
    assert_eq!(list[0].name, "Co57");
    assert_eq!(list[1].name, "Co60");
}

#[test]
fn expansion_passes_explicit_isotopes_through() {
    let available = vec![ident(('C', Some('o')), 57, IsomerState::Ground)];
    let id = ident(('C', Some('o')), 60, IsomerState::Excited(1));
    let out = expand_elements(id, &available);
    assert_eq!(out, vec![id]);
}

#[test]
fn collection_is_sorted_by_name() {
    let cli = cli_for(&["cs137", "co60", "ag108m"]);
    let available: Vec<NuclideIdentifier> = Vec::new();
    let list = parse_nuclides(&cli, &available).expect("three nuclides expected");
    let names: Vec<&str> = list.iter().map(|d| d.name.as_str()).collect();
    assert_eq!(names, vec!["Ag108m1", "Co60", "Cs137"]);
}

#[test]
fn empty_results_propagate_as_no_data() {
    let a = data("Co60", ident(('C', Some('o')), 60, IsomerState::Ground), Vec::new());
    let b = data("Cs137", ident(('C', Some('s')), 137, IsomerState::Ground), Vec::new());
    assert_eq!(retain_resolved(vec![a, b]), Err(DecayError::NoDataFound));
}

#[test]
fn nuclides_with_records_survive_retention() {
    let a = data("Co60", ident(('C', Some('o')), 60, IsomerState::Ground), Vec::new());
    let b = data(
        "Cs137",
        ident(('C', Some('s')), 137, IsomerState::Ground),
        vec![rec(Some(0), Some(1 * KEV), Some(1))],
    );
    let kept = retain_resolved(vec![a, b]).expect("one nuclide kept");
    assert_eq!(kept.len(), 1);
    assert_eq!(kept[0].name, "Cs137");
}

#[test]
fn find_records_resolves_through_the_pool() {
    let mut d = data("Co60", ident(('C', Some('o')), 60, IsomerState::Ground), Vec::new());
    let pool = vec![
        rec(Some(0), Some(1 * KEV), Some(1)),
        rec(Some(58 * KEV), Some(2 * KEV), Some(2)),
    ];
    d.find_records(Some(pool));
    assert_eq!(d.records.len(), 1);
    assert_eq!(d.records[0].p_energy, Some(0));

    let mut e = data("Co60", ident(('C', Some('o')), 60, IsomerState::Ground), Vec::new());
    e.find_records(None);
    assert!(e.records.is_empty());
}

#[test]
fn card_records_need_energy_and_intensity() {
    let out = card_records(vec![
        rec(Some(0), Some(1 * KEV), Some(1)),
        rec(Some(0), None, Some(2)),
        rec(Some(0), Some(3 * KEV), None),
        rec(Some(0), None, None),
    ]);
    assert_eq!(out.len(), 1);
    assert_eq!(out[0].energy, Some(1 * KEV));
}

#[test]
fn request_names_drop_consecutive_repeats() {
    let g = data("Co60", ident(('C', Some('o')), 60, IsomerState::Ground), Vec::new());
    let m = data("Co60m1", ident(('C', Some('o')), 60, IsomerState::Excited(1)), Vec::new());
    let c = data("Cs137", ident(('C', Some('s')), 137, IsomerState::Ground), Vec::new());
    let names = request_names(&vec![g, m, c]);
    assert_eq!(names, vec!["Co60", "Cs137"]);
}

#[test]
fn name_sort_is_stable_and_ordered() {
    let a = data("Co60", ident(('C', Some('o')), 60, IsomerState::Ground), Vec::new());
    let b = data(
        "Co60",
        ident(('C', Some('o')), 60, IsomerState::Ground),
        vec![rec(Some(0), Some(1 * KEV), Some(7))],
    );
    let c = data("Ag108", ident(('A', Some('g')), 108, IsomerState::Ground), Vec::new());
    let mut v = vec![a, b, c];
    sort_nuclides_by_name(&mut v);
    assert_eq!(v[0].name, "Ag108");
    assert_eq!(v[1].name, "Co60");
    assert!(v[1].records.is_empty());
    assert_eq!(v[2].records.len(), 1);
}

#[test]
fn radiation_and_property_names() {
    assert_eq!(CliRadType::Alpha.name(), "alpha");
    assert_eq!(CliRadType::BetaPlus.name(), "beta plus");
    assert_eq!(CliRadType::BetaMinus.name(), "beta minus");
    assert_eq!(CliRadType::Gamma.name(), "gamma");
    assert_eq!(CliRadType::Xray.name(), "x-ray");
    assert_eq!(CliRadType::Electron.name(), "electron");
    assert_eq!(Property::Energy.name(), "energy");
    assert_eq!(Property::Intensity.name(), "intensity");
}

#[test]
fn property_selector_parses_case_insensitively() {
    assert_eq!(Property::from(String::from("i")), Property::Intensity);
    assert_eq!(Property::from(String::from("Intensity")), Property::Intensity);
    assert_eq!(Property::from(String::from("e")), Property::Energy);
    assert_eq!(Property::from(String::from("ENERGY")), Property::Energy);
    assert_eq!(Property::from(String::from("bogus")), Property::Energy);
    assert_eq!(Property::default(), Property::Energy);
}
