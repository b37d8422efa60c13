use keyboard_patterns::engine::{AggregationEngine, LayoutTally};
use keyboard_patterns::layout::{ColemakLayout, DvorakLayout, KeyLayout, QwertyLayout};
use keyboard_patterns::pattern::{count_patterns, BadPattern, PatternCounts};
use keyboard_patterns::project::{get_files_extensions_for_project, has_extension};

fn tally_of<'a>(report: &'a Vec<LayoutTally>, name: &str) -> Option<&'a Vec<BadPattern>> {
    report.iter().find(|t| t.name == name).map(|t| &t.findings)
}

fn all_layouts() -> Vec<KeyLayout> {
    vec![ColemakLayout::new(), QwertyLayout::new(), DvorakLayout::new()]
}

fn counts(findings: &Vec<BadPattern>) -> (usize, usize, usize, usize) {
    let PatternCounts { total, weak, same_finger, unbound } = count_patterns(findings);
    (total, weak, same_finger, unbound)
}

#[test]
fn layout_names() {
    assert_eq!(QwertyLayout::new().get_name(), "qwerty");
    assert_eq!(ColemakLayout::new().get_name(), "colemak");
    assert_eq!(DvorakLayout::new().get_name(), "dvorak");
    assert_eq!(DvorakLayout::new().name_string(), "dvorak".to_string());
}

#[test]
fn zones_of_mapped_characters() {
    let q = QwertyLayout::new();
    assert_eq!(q.get_finger('q'), -5);
    assert_eq!(q.get_finger('w'), -4);
    assert_eq!(q.get_finger('a'), -5);
    assert_eq!(q.get_finger('t'), -1);
    assert_eq!(q.get_finger('y'), 1);
    assert_eq!(q.get_finger('p'), 5);
    assert_eq!(q.get_finger('}'), 7);
    assert_eq!(q.get_finger('>'), 3);
    let c = ColemakLayout::new();
    assert_eq!(c.get_finger('y'), 4);
    assert_eq!(c.get_finger('e'), 3);
    assert_eq!(c.get_finger('s'), -3);
    let d = DvorakLayout::new();
    assert_eq!(d.get_finger('q'), -3);
    assert_eq!(d.get_finger('s'), 5);
    assert_eq!(d.get_finger('='), 7);
}

#[test]
fn unmapped_characters_have_zone_zero() {
    for layout in all_layouts() {
        assert_eq!(layout.get_finger('~'), 0);
        assert_eq!(layout.get_finger('Q'), 0);
        assert_eq!(layout.get_finger(' '), 0);
        assert_eq!(layout.get_finger('é'), 0);
    }
    assert_eq!(ColemakLayout::new().get_finger('?'), 0);
    assert_eq!(DvorakLayout::new().get_finger('?'), -5);
}

#[test]
fn unmapped_character_is_never_reported() {
    let q = QwertyLayout::new();
    assert_eq!(q.find_bad_patterns("~~"), vec![]);
    // 'q' and 'a' share a zone, but '~' between them breaks the pair.
    assert_eq!(q.find_bad_patterns("q~a"), vec![]);
    assert_eq!(q.find_bad_patterns("t~"), vec![BadPattern::UnboundPosition('t')]);
    assert_eq!(q.find_bad_patterns("~t"), vec![BadPattern::UnboundPosition('t')]);
}

#[test]
fn same_finger_pair_qwerty() {
    let q = QwertyLayout::new();
    assert_eq!(q.find_bad_patterns("qa"), vec![BadPattern::SameFinger('q', 'a')]);
}

#[test]
fn qa_corpus_report_qwerty() {
    let layouts = vec![QwertyLayout::new()];
    let mut engine = AggregationEngine::new();
    assert_eq!(engine.process("qa", &layouts), 1);
    let report = engine.report();
    assert_eq!(report.len(), 1);
    let findings = tally_of(report, "qwerty").unwrap();
    assert_eq!(counts(findings), (1, 0, 1, 0));
}

#[test]
fn yes_colemak_is_clean() {
    let c = ColemakLayout::new();
    assert_eq!(c.find_bad_patterns("yes"), vec![]);
    let layouts = vec![ColemakLayout::new()];
    let mut engine = AggregationEngine::new();
    assert_eq!(engine.process("yes", &layouts), 1);
    assert!(engine.report().is_empty());
    // The clean result is remembered: meeting the token again detects nothing.
    assert_eq!(engine.process("yes", &layouts), 0);
    assert!(engine.report().is_empty());
}

#[test]
fn repeated_pair_is_not_same_finger() {
    let q = QwertyLayout::new();
    assert_eq!(
        q.find_bad_patterns("letter"),
        vec![BadPattern::UnboundPosition('t'), BadPattern::UnboundPosition('t')]
    );
    assert_eq!(q.find_bad_patterns("aa"), vec![]);
    assert_eq!(
        q.find_bad_patterns("pp"),
        vec![BadPattern::WeakPosition('p'), BadPattern::WeakPosition('p')]
    );
}

#[test]
fn weak_position_only_on_positive_side() {
    let q = QwertyLayout::new();
    // 'q' is in zone -5: no weak position for it.
    assert_eq!(q.find_bad_patterns("q"), vec![]);
    assert_eq!(q.find_bad_patterns("p"), vec![BadPattern::WeakPosition('p')]);
    assert_eq!(q.find_bad_patterns("]"), vec![BadPattern::WeakPosition(']')]);
}

#[test]
fn findings_in_scan_order() {
    let d = DvorakLayout::new();
    assert_eq!(
        d.find_bad_patterns("sz"),
        vec![
            BadPattern::WeakPosition('s'),
            BadPattern::SameFinger('s', 'z'),
            BadPattern::WeakPosition('z'),
        ]
    );
    let q = QwertyLayout::new();
    // 't' and 'g' are both in zone -1.
    assert_eq!(
        q.find_bad_patterns("tg"),
        vec![
            BadPattern::UnboundPosition('t'),
            BadPattern::SameFinger('t', 'g'),
            BadPattern::UnboundPosition('g'),
        ]
    );
}

#[test]
fn empty_and_single_character_tokens_are_skipped() {
    let layouts = all_layouts();
    let mut engine = AggregationEngine::new();
    assert_eq!(engine.process("", &layouts), 0);
    assert_eq!(engine.process("p", &layouts), 0);
    assert_eq!(engine.process("P", &layouts), 0);
    assert_eq!(engine.process_normalized("t", &layouts), 0);
    assert!(engine.report().is_empty());
}

#[test]
fn repeated_word_in_two_files() {
    let layouts = vec![QwertyLayout::new()];
    let mut engine = AggregationEngine::new();
    // first file
    assert_eq!(engine.process("qa", &layouts), 1);
    // second file
    assert_eq!(engine.process("qa", &layouts), 0);
    let findings = tally_of(engine.report(), "qwerty").unwrap();
    assert_eq!(
        findings,
        &vec![BadPattern::SameFinger('q', 'a'), BadPattern::SameFinger('q', 'a')]
    );
}

#[test]
fn tally_grows_by_each_occurrence() {
    let layouts = vec![DvorakLayout::new()];
    let mut engine = AggregationEngine::new();
    let k = 5;
    for _ in 0..k {
        engine.process("sz", &layouts);
    }
    let findings = tally_of(engine.report(), "dvorak").unwrap();
    assert_eq!(findings.len(), k * 3);
    for chunk in findings.chunks(3) {
        assert_eq!(
            chunk,
            &[
                BadPattern::WeakPosition('s'),
                BadPattern::SameFinger('s', 'z'),
                BadPattern::WeakPosition('z'),
            ]
        );
    }
}

#[test]
fn memoized_result_matches_direct_detection() {
    let layouts = vec![QwertyLayout::new()];
    let mut engine = AggregationEngine::new();
    engine.process("letter", &layouts);
    engine.process("letter", &layouts);
    let direct = QwertyLayout::new().find_bad_patterns("letter");
    let mut twice = direct.clone();
    twice.extend(direct.iter().cloned());
    assert_eq!(tally_of(engine.report(), "qwerty").unwrap(), &twice);
}

#[test]
fn tokens_are_lower_cased() {
    let layouts = vec![QwertyLayout::new()];
    let mut engine = AggregationEngine::new();
    assert_eq!(engine.process("QA", &layouts), 1);
    // "Qa" lower-cases to the same token: nothing new is detected.
    assert_eq!(engine.process("Qa", &layouts), 0);
    let findings = tally_of(engine.report(), "qwerty").unwrap();
    assert_eq!(
        findings,
        &vec![BadPattern::SameFinger('q', 'a'), BadPattern::SameFinger('q', 'a')]
    );
}

#[test]
fn layouts_tallied_separately() {
    let layouts = all_layouts();
    let mut engine = AggregationEngine::new();
    // Every layout meets the token for the first time.
    assert_eq!(engine.process("qa", &layouts), 3);
    let report = engine.report();
    // qwerty: q and a share zone -5; colemak likewise.
    assert_eq!(tally_of(report, "qwerty").unwrap(), &vec![BadPattern::SameFinger('q', 'a')]);
    assert_eq!(tally_of(report, "colemak").unwrap(), &vec![BadPattern::SameFinger('q', 'a')]);
    // dvorak: q is -3 and a is -5, no finding and no entry.
    assert!(tally_of(report, "dvorak").is_none());
    assert_eq!(report.len(), 2);
}

#[test]
fn same_layout_listed_twice_is_detected_once() {
    let layouts = vec![QwertyLayout::new(), QwertyLayout::new()];
    let mut engine = AggregationEngine::new();
    assert_eq!(engine.process("qa", &layouts), 1);
    assert_eq!(tally_of(engine.report(), "qwerty").unwrap().len(), 2);
}

#[test]
fn counts_by_kind() {
    let findings = vec![
        BadPattern::WeakPosition('p'),
        BadPattern::SameFinger('q', 'a'),
        BadPattern::UnboundPosition('t'),
        BadPattern::UnboundPosition('g'),
        BadPattern::WeakPosition(']'),
        BadPattern::WeakPosition('p'),
    ];
    assert_eq!(counts(&findings), (6, 3, 1, 2));
    assert_eq!(counts(&vec![]), (0, 0, 0, 0));
}

#[test]
fn project_extensions() {
    let exts = get_files_extensions_for_project("cs").unwrap();
    assert_eq!(exts, vec!["cs".to_string(), "html".to_string()]);
    assert!(get_files_extensions_for_project("rs").is_none());
    assert!(get_files_extensions_for_project("").is_none());
    assert!(has_extension(&exts, "cs"));
    assert!(has_extension(&exts, "html"));
    assert!(!has_extension(&exts, "htm"));
    assert!(!has_extension(&exts, ""));
}

#[test]
fn tokens_sharing_a_memo_bucket_stay_apart() {
    // "qa" and "box" fall into the same memo bucket.
    let layouts = vec![QwertyLayout::new()];
    let mut engine = AggregationEngine::new();
    assert_eq!(engine.process("qa", &layouts), 1);
    assert_eq!(engine.process("box", &layouts), 1);
    assert_eq!(engine.process("box", &layouts), 0);
    assert_eq!(engine.process("qa", &layouts), 0);
    assert_eq!(
        tally_of(engine.report(), "qwerty").unwrap(),
        &vec![
            BadPattern::SameFinger('q', 'a'),
            BadPattern::UnboundPosition('b'),
            BadPattern::UnboundPosition('b'),
            BadPattern::SameFinger('q', 'a'),
        ]
    );
}

#[test]
fn many_distinct_tokens_each_detected_once() {
    let layouts = all_layouts();
    let mut engine = AggregationEngine::new();
    let letters: Vec<char> = "abcdefghijklmnopqrstuvwxyz".chars().collect();
    let mut words = Vec::new();
    for a in &letters {
        for b in &letters {
            words.push(format!("{}{}", a, b));
        }
    }
    for w in &words {
        assert_eq!(engine.process(w, &layouts), 3);
    }
    for w in &words {
        assert_eq!(engine.process(w, &layouts), 0);
    }
    let q = QwertyLayout::new();
    let expected: usize = words.iter().map(|w| q.find_bad_patterns(w).len()).sum();
    assert_eq!(tally_of(engine.report(), "qwerty").unwrap().len(), 2 * expected);
}

#[test]
fn non_ascii_tokens() {
    let layouts = vec![QwertyLayout::new()];
    let mut engine = AggregationEngine::new();
    // One character, even if it takes two bytes: skipped.
    assert_eq!(engine.process("é", &layouts), 0);
    assert_eq!(engine.process("éé", &layouts), 1);
    assert!(engine.report().is_empty());
    assert_eq!(
        QwertyLayout::new().find_bad_patterns("téb"),
        vec![BadPattern::UnboundPosition('t'), BadPattern::UnboundPosition('b')]
    );
    // Upper-case non-ASCII letters are lower-cased too.
    assert_eq!(engine.process("ÉÉ", &layouts), 0);
}
