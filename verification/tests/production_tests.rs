use lsystem::ConstGen;
use lsystem::CycleGen;
use lsystem::LSystem;
use lsystem::ProductionRule;

fn chars(s: &str) -> Vec<char> {
    s.chars().collect()
}

fn text(v: &[char]) -> String {
    v.iter().collect()
}

#[test]
fn test_single_system_production() {
    let mut system = LSystem::<ConstGen>::new(chars("F+F+F+F"));
    system.register_production_rule(chars("F"), ConstGen::new(chars("F+F-F-FF+F+F-F ")));
    system.step();
    assert_eq!(
        text(&system.word),
        "F+F-F-FF+F+F-F +F+F-F-FF+F+F-F +F+F-F-FF+F+F-F +F+F-F-FF+F+F-F ".to_owned()
    );
}

#[test]
fn test_multi_system_production() {
    let mut system = LSystem::<ConstGen>::new(chars("A"));
    system.register_production_rule(chars("A"), ConstGen::new(chars("AB")));
    system.register_production_rule(chars("B"), ConstGen::new(chars("A")));

    system.step();
    assert_eq!(text(&system.word), "AB".to_owned());

    system.step_by(2);
    assert_eq!(text(&system.word), "ABAAB".to_owned());

    system.step_by(4);
    assert_eq!(
        text(&system.word),
        "ABAABABAABAABABAABABAABAABABAABAAB".to_owned()
    );
}

#[test]
fn step_by_zero_is_identity() {
    let mut system = LSystem::<ConstGen>::new(chars("F+F+F+F"));
    system.register_production_rule(chars("F"), ConstGen::new(chars("FF")));
    system.step_by(0);
    assert_eq!(text(&system.word), "F+F+F+F".to_owned());
}

#[test]
fn step_by_in_parts_equals_step_by_at_once() {
    let mut split = LSystem::<ConstGen>::new(chars("A"));
    split.register_production_rule(chars("A"), ConstGen::new(chars("AB")));
    split.register_production_rule(chars("B"), ConstGen::new(chars("A")));
    split.step_by(2);
    split.step_by(3);

    let mut whole = LSystem::<ConstGen>::new(chars("A"));
    whole.register_production_rule(chars("A"), ConstGen::new(chars("AB")));
    whole.register_production_rule(chars("B"), ConstGen::new(chars("A")));
    whole.step_by(5);

    assert_eq!(text(&split.word), text(&whole.word));
}

#[test]
fn earliest_starting_match_wins() {
    // "B" is registered first, but at position 0 only "AB" starts, and an
    // earlier starting index beats registration order.
    let mut system = LSystem::<ConstGen>::new(chars("AB"));
    system.register_production_rule(chars("B"), ConstGen::new(chars("x")));
    system.register_production_rule(chars("AB"), ConstGen::new(chars("y")));
    system.step();
    assert_eq!(text(&system.word), "y".to_owned());
}

#[test]
fn first_registered_wins_a_tie() {
    // Both tokens start at position 0; the one registered first fires.
    let mut system = LSystem::<ConstGen>::new(chars("AB"));
    system.register_production_rule(chars("A"), ConstGen::new(chars("x")));
    system.register_production_rule(chars("AB"), ConstGen::new(chars("y")));
    system.step();
    assert_eq!(text(&system.word), "xB".to_owned());
}

#[test]
fn reregistering_a_token_replaces_its_rule() {
    let mut system = LSystem::<ConstGen>::new(chars("F"));
    system.register_production_rule(chars("F"), ConstGen::new(chars("a")));
    system.register_production_rule(chars("F"), ConstGen::new(chars("b")));
    system.step();
    assert_eq!(text(&system.word), "b".to_owned());
}

#[test]
fn replacements_are_never_rescanned_within_a_step() {
    // A's replacement holds B, and B's holds A; one step rewrites each
    // occurrence exactly once, against the word as it stood before the step.
    let mut system = LSystem::<ConstGen>::new(chars("AB"));
    system.register_production_rule(chars("A"), ConstGen::new(chars("BB")));
    system.register_production_rule(chars("B"), ConstGen::new(chars("A")));
    system.step();
    assert_eq!(text(&system.word), "BBA".to_owned());
}

#[test]
fn with_rules_keeps_registration_order() {
    let rules = vec![
        ProductionRule { token: chars("A"), gen: ConstGen::new(chars("AB")) },
        ProductionRule { token: chars("B"), gen: ConstGen::new(chars("A")) },
    ];
    let mut system = LSystem::with_rules(chars("A"), rules);
    system.step_by(3);
    assert_eq!(text(&system.word), "ABAAB".to_owned());
}

#[test]
fn unmatched_text_is_copied_through() {
    let mut system = LSystem::<ConstGen>::new(chars("x+y"));
    system.register_production_rule(chars("+"), ConstGen::new(chars("-")));
    system.step();
    assert_eq!(text(&system.word), "x-y".to_owned());
}

#[test]
fn new_system_has_no_rules() {
    let mut system = LSystem::<ConstGen>::new(chars("FFF"));
    system.step();
    assert_eq!(text(&system.word), "FFF".to_owned());
    assert_eq!(system.production_rules.len(), 0);
}

#[test]
fn a_stateful_generator_fires_once_per_occurrence() {
    // The rule walks its texts: the step's three occurrences of F receive
    // three successive firings, wrapping around after the second.
    let mut system = LSystem::<CycleGen>::new(chars("F+F+F"));
    system.register_production_rule(
        chars("F"),
        CycleGen::new(vec![chars("ab"), chars("c")]),
    );
    system.step();
    assert_eq!(text(&system.word), "ab+c+ab".to_owned());
}

#[test]
fn a_stateful_generator_keeps_its_state_across_steps() {
    // Two firings in the first step leave the counter back at the first
    // text; the single firing of the second step picks it up from there.
    let mut system = LSystem::<CycleGen>::new(chars("FF"));
    system.register_production_rule(
        chars("F"),
        CycleGen::new(vec![chars("F+"), chars("-")]),
    );
    system.step();
    assert_eq!(text(&system.word), "F+-".to_owned());
    system.step();
    assert_eq!(text(&system.word), "F++-".to_owned());
}
