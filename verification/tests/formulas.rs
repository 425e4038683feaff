use ltmrs::canonical::receipts::{
    after_commit, check_schema_version, decode_receipt, encode_receipt, receipt_key, CommitEvent,
    CommitStep, SchemaCheck,
};
use ltmrs::compatibility::lemma::conflicts::{
    detect_contradiction_signals, extract_topic_signature, has_negation,
};
use ltmrs::compatibility::lemma::reference::{
    calculate_quality_score, injection_score, QualityCounters,
};
use ltmrs::daemon::tools::common::normalize_project;
use ltmrs::daemon::tools::tally::tally_of;
use ltmrs::dates::{civil_from_days, date_only, iso8601, parse_iso_date};
use ltmrs::digest::sha256_hex;
use ltmrs::domain::command::{
    CommandContext, CommandReceipt, DomainErrorCode, ReceiptOutcome, Scope,
};
use ltmrs::domain::id::{ChannelId, EntityId, FrontendId, OperationId, StoreGeneration};
use ltmrs::domain::score::Score;
use ltmrs::double::{from_whole, quotient, Double};
use ltmrs::figures::{
    full_string, percent_of, percent_string, score_string, two_places_text,
};
use ltmrs::overlap::{take_bytes, word_overlap};
use ltmrs::signed::{mean_of, Signed};
use ltmrs::text::{contains, decimal, equal_fold, join, split_words, trim};

/// A stream of numbers that look random.
struct Numbers(u64);

impl Numbers {
    fn next(&mut self) -> u64 {
        self.0 = self.0.wrapping_mul(6364136223846793005).wrapping_add(1442695040888963407);
        (self.0 >> 11) ^ (self.0 >> 43)
    }

    fn below(&mut self, n: u64) -> u64 {
        self.next() % n
    }
}

/// The score of a number.
fn score(x: f64) -> Score {
    let size = x.abs().to_bits() as i64;
    Score(if x < 0.0 { -size } else { size })
}

fn number(d: Double) -> f64 {
    d.m as f64 * 2f64.powi(d.e)
}

fn signed(s: Signed) -> f64 {
    if s.negative {
        -number(s.size)
    } else {
        number(s.size)
    }
}

#[test]
fn fractions_agree_with_the_machine() {
    let mut ns = Numbers(7);
    for _ in 0..5000 {
        let (a, b) = (ns.below(1 << 40) + 1, ns.below(1 << 30) + 1);
        let (c, d) = (ns.below(5000) + 1, ns.below(300) + 1);
        let x = quotient(a as u128, b as u128);
        let y = quotient(c as u128, d as u128);
        let (fx, fy) = (a as f64 / b as f64, c as f64 / d as f64);
        assert_eq!(number(x), fx);
        assert_eq!(number(x.added(y)), fx + fy);
        assert_eq!(number(x.multiplied(y)), fx * fy);
        assert_eq!(number(x.divided(y)), fx / fy);
        assert_eq!(x.is_below(y), fx < fy);
        if fy <= fx {
            assert_eq!(number(x.lessened(y)), fx - fy);
        }
        assert_eq!(y.to_rounded() as f64, fy.round());
        assert_eq!(two_places_text(y.to_hundredths()), format!("{:.2}", fy));
        assert_eq!(y.to_text(), format!("{}", fy));
        assert_eq!(x.to_text(), format!("{}", fx));
    }
    for n in [0u64, 1, 2, 10, 9007199254740993, u64::MAX] {
        assert_eq!(number(from_whole(n as u128)), n as f64);
    }
}

#[test]
fn halves_round_as_the_machine_rounds_them() {
    for h in 0..2000u64 {
        let x = h as f64 / 8.0;
        let d = quotient(h as u128, 8);
        assert_eq!(d.to_rounded() as f64, x.round());
        assert_eq!(two_places_text(d.to_hundredths()), format!("{:.2}", x));
    }
}

#[test]
fn scores_print_as_floats() {
    let mut ns = Numbers(3);
    for _ in 0..3000 {
        let t = ns.below(1001);
        let f = t as f64 / 1000.0;
        let s = score(f);
        assert_eq!(score_string(s), format!("{:.2}", f));
        assert_eq!(full_string(s), format!("{}", f));
        assert_eq!(percent_of(s) as f64, (f * 100.0).round());
    }
    assert_eq!(score_string(score(-0.25)), "-0.25");
    assert_eq!(full_string(score(0.515)), "0.515");
    for _ in 0..3000 {
        let f = wide(&mut ns);
        let s = score(f);
        assert_eq!(score_string(s), format!("{:.2}", f));
        assert_eq!(full_string(s), format!("{}", f));
        assert_eq!(percent_of(s), (f * 100.0).round() as u64);
        let p = f * 100.0;
        if p.is_finite() {
            assert_eq!(percent_string(s), format!("{:.0}", p));
        }
    }
}

/// A number of any size, either side of zero.
fn wide(ns: &mut Numbers) -> f64 {
    let e = ns.below(2046) + 1;
    let e = if ns.below(2) == 0 { 1023 - 40 + e % 80 } else { e };
    f64::from_bits(ns.below(2) << 63 | e << 52 | ns.next() % (1 << 52))
}

/// Digits are written until a number is told from all others, and no further.
#[test]
fn numbers_run_until_they_are_told_apart() {
    let mut ns = Numbers(29);
    for _ in 0..2000 {
        let f = wide(&mut ns).abs();
        let d = score(f).to_number().size;
        assert_eq!(number_exact(d), f);
        assert_eq!(d.to_text(), format!("{}", f));
    }
    for k in 1..2046u64 {
        let f = f64::from_bits(k << 52);
        assert_eq!(score(f).to_number().size.to_text(), format!("{}", f));
    }
    for f in [0.0, 1.0, 0.1, 0.3, 5e-5, 1e21, 1e23, 9007199254740993.0, f64::MAX, f64::MIN_POSITIVE] {
        assert_eq!(score(f).to_number().size.to_text(), format!("{}", f));
    }
    let third = mean_of(&vec![score(0.0001), score(0.0), score(0.0)]);
    assert_eq!(third.size.to_text(), format!("{}", 0.0001f64 / 3.0));
    assert!(third.size.to_text().len() > 22);
    let most = mean_of(&vec![score(f64::MAX), score(f64::MAX)]);
    assert_eq!(most.size.to_text(), "inf");
}

/// A number whose parts the machine cannot multiply out in one step.
fn number_exact(d: Double) -> f64 {
    d.m as f64 * 2f64.powi(d.e / 2) * 2f64.powi(d.e - d.e / 2)
}

#[test]
fn averages_agree_with_the_machine() {
    let mut ns = Numbers(11);
    for n in 1..60usize {
        let scores: Vec<Score> = (0..n).map(|_| score(ns.below(1001) as f64 / 1000.0)).collect();
        let sum: f64 = scores.iter().map(|s| f64::from_bits(s.0 as u64)).sum();
        assert_eq!(signed(mean_of(&scores)), sum / n as f64);
    }
}

fn expected_quality(c: &QualityCounters, now: u64) -> f64 {
    let confidence = f64::from_bits(c.confidence.0 as u64);
    let pos = c.positive_feedback as f64;
    let total = pos + c.negative_feedback as f64;
    let feedback = if total > 0.0 { pos / total } else { 0.5 };
    let usage = (c.accessed as f64 / 10.0).min(1.0);
    let refinement = (c.refinement_count as f64 / 3.0).min(1.0);
    let stale = c.last_accessed_millis.map_or(0.0, |t| (now as f64 - t as f64) / 86_400_000.0);
    let stale = (stale / 180.0).clamp(0.0, 1.0);
    let hits = (c.negative_hits as f64 / 4.0).min(1.0);
    let score = 0.40 * confidence
        + 0.20 * feedback
        + 0.15 * usage
        + 0.10 * refinement
        + 0.15 * (1.0 - stale)
        - 0.35 * hits;
    (score.clamp(0.0, 1.0) * 1000.0).round() / 1000.0
}

#[test]
fn quality_agrees_with_the_formula() {
    let mut ns = Numbers(5);
    let now = 1_800_000_000_000u64;
    for i in 0..4000 {
        let c = QualityCounters {
            confidence: score(ns.below(1001) as f64 / 1000.0),
            positive_feedback: ns.below(8),
            negative_feedback: ns.below(8),
            accessed: ns.below(15),
            refinement_count: ns.below(5),
            last_accessed_millis: if i % 5 == 0 {
                None
            } else {
                Some(now + 1000 - ns.below(20_000_000_000))
            },
            negative_hits: ns.below(6),
        };
        let q = calculate_quality_score(&c, now);
        assert_eq!(q as f64 / 1000.0, expected_quality(&c, now), "{:?}", c);
    }
}

#[test]
fn injection_agrees_with_the_formula() {
    let mut ns = Numbers(9);
    let now = 1_800_000_000_000u64;
    for _ in 0..4000 {
        let t = ns.below(1001);
        let created = now + 500_000_000 - ns.below(30_000_000_000);
        let days = (now as f64 - created as f64) / 86_400_000.0;
        let recency = (1.0 - days / 180.0).max(0.0);
        let expected = t as f64 / 1000.0 * 0.7 + recency * 0.3;
        let got = injection_score(score(t as f64 / 1000.0), created, now);
        assert_eq!(signed(got), expected);
    }
}

#[test]
fn dates_are_those_of_the_calendar() {
    assert_eq!(civil_from_days(0), (1970, 1, 1));
    assert_eq!(civil_from_days(11_016), (2000, 2, 29));
    assert_eq!(date_only(1_700_000_000_000), "2023-11-14");
    assert_eq!(iso8601(1_700_000_000_123), "2023-11-14T22:13:20.123Z");
    assert_eq!(parse_iso_date("2023-11-14"), Some(1_699_920_000_000));
    assert_eq!(parse_iso_date("yesterday"), None);
    let mut ns = Numbers(13);
    for _ in 0..500 {
        let day = ns.below(200_000) * 86_400_000;
        assert_eq!(parse_iso_date(&date_only(day)), Some(day));
    }
}

#[test]
fn digests_are_those_of_the_standard() {
    assert_eq!(
        sha256_hex("abc"),
        "ba7816bf8f01cfea414140de5dae2223b00361a396177a9cb410ff61f20015ad"
    );
    assert_eq!(
        sha256_hex(""),
        "e3b0c44298fc1c149afbf4c8996fb92427ae41e4649b934ca495991b7852b855"
    );
}

#[test]
fn texts_agree_with_std() {
    let mut ns = Numbers(17);
    let letters: Vec<char> = " \t\nabAB.,é中\u{3000}x0".chars().collect();
    for _ in 0..2000 {
        let n = ns.below(12) as usize;
        let s: String =
            (0..n).map(|_| letters[ns.below(letters.len() as u64) as usize]).collect();
        let n = ns.below(3) as usize;
        let p: String =
            (0..n).map(|_| letters[ns.below(letters.len() as u64) as usize]).collect();
        assert_eq!(trim(&s), s.trim());
        assert_eq!(contains(&s, &p), s.contains(&p));
        let words: Vec<String> = s.split_whitespace().map(|w| w.to_string()).collect();
        assert_eq!(split_words(&s), words);
        assert_eq!(join(&words, ", "), words.join(", "));
        assert_eq!(equal_fold(&s, &p), s.eq_ignore_ascii_case(&p));
        let k = ns.next();
        assert_eq!(decimal(k), k.to_string());
    }
}

#[test]
fn a_text_is_cut_between_characters() {
    assert_eq!(take_bytes("abcdef", 3), "abc");
    assert_eq!(take_bytes("abc", 10), "abc");
    assert!("aé中b".starts_with(&take_bytes("aé中b", 3)));
}

#[test]
fn overlap_is_what_the_words_share() {
    assert_eq!(number(word_overlap("alpha beta gamma", "alpha beta delta")), 2.0 / 4.0);
    assert_eq!(number(word_overlap("Alpha BETA", "alpha beta")), 1.0);
    assert_eq!(number(word_overlap("", "alpha")), 0.0);
}

#[test]
fn contradictions_show_in_the_words() {
    assert!(has_negation("never use unwrap"));
    assert!(!has_negation("use tokio runtime"));
    assert!(detect_contradiction_signals("always use tabs", "never use tabs") >= 1);
    assert!(extract_topic_signature("the database database schema").contains(&"database".to_string()));
}

#[test]
fn tallies_count_names() {
    let names: Vec<String> =
        ["b", "a", "b", "c", "b"].iter().map(|s| s.to_string()).collect();
    let ts = tally_of(&names);
    let total: u64 = ts.iter().map(|t| t.count).sum();
    assert_eq!(total, 5);
    assert_eq!(ts.iter().find(|t| t.name == "b").unwrap().count, 3);
}

// --- Receipts ---

fn receipt(outcome: ReceiptOutcome) -> CommandReceipt {
    CommandReceipt {
        operation_id: OperationId::new(7),
        store_generation: StoreGeneration::new(2),
        frontend_id: FrontendId::new(3),
        channel_id: ChannelId::new(4),
        request_digest: "d".to_string(),
        outcome,
        retry_epoch: 5,
    }
}

fn context(digest: &str) -> CommandContext {
    CommandContext {
        store_generation: StoreGeneration::new(2),
        frontend_id: FrontendId::new(3),
        channel_id: ChannelId::new(4),
        session: None,
        operation_id: OperationId::new(7),
        request_digest: digest.to_string(),
        deadline_millis: None,
        scope: Scope::default(),
        retry_epoch: 5,
    }
}

#[test]
fn receipts_read_back() {
    let r = receipt(ReceiptOutcome::Success { affected: vec![EntityId::new(1), EntityId::new(9)] });
    let back = decode_receipt(&encode_receipt(&r)).unwrap();
    assert_eq!(back.operation_id, r.operation_id);
    assert_eq!(back.frontend_id, r.frontend_id);
    assert_eq!(back.retry_epoch, 5);
    match back.outcome {
        ReceiptOutcome::Success { affected } => {
            assert_eq!(affected, vec![EntityId::new(1), EntityId::new(9)])
        }
        other => panic!("unexpected outcome: {:?}", other),
    }
    let r = receipt(ReceiptOutcome::Rejected { code: DomainErrorCode::RevisionConflict });
    match decode_receipt(&encode_receipt(&r)).unwrap().outcome {
        ReceiptOutcome::Rejected { code } => assert_eq!(code, DomainErrorCode::RevisionConflict),
        other => panic!("unexpected outcome: {:?}", other),
    }
    assert_eq!(
        receipt_key(StoreGeneration::new(2), OperationId::new(7)),
        "2:00000000-0000-0000-0000-000000000007"
    );
    assert_eq!(
        receipt_key(
            StoreGeneration::new(0),
            OperationId::new(0x0123_4567_89ab_cdef_0123_4567_89ab_cdef),
        ),
        "0:01234567-89ab-cdef-0123-456789abcdef"
    );
    let mut broken = encode_receipt(&r);
    broken.channel_id = "y".to_string();
    let of_channel = decode_receipt(&broken).unwrap_err().message;
    broken.operation_id = "x".to_string();
    let of_operation = decode_receipt(&broken).unwrap_err();
    assert_eq!(of_operation.code, DomainErrorCode::Validation);
    assert_eq!(of_operation.message, uuid::Uuid::parse_str("x").unwrap_err().to_string());
    assert_eq!(of_channel, uuid::Uuid::parse_str("y").unwrap_err().to_string());
}

#[test]
fn a_conflict_is_tried_again_a_few_times() {
    let r = || receipt(ReceiptOutcome::Success { affected: vec![] });
    match after_commit(0, r(), &context("d"), CommitEvent::Conflict) {
        CommitStep::Retry(n) => assert_eq!(n, 1),
        other => panic!("unexpected step: {:?}", other),
    }
    match after_commit(7, r(), &context("d"), CommitEvent::Conflict) {
        CommitStep::Finish(Err(e)) => assert_eq!(e.message, "max transaction retries exceeded"),
        other => panic!("unexpected step: {:?}", other),
    }
    assert!(matches!(
        after_commit(0, r(), &context("d"), CommitEvent::Committed),
        CommitStep::Finish(Ok(_))
    ));
    let unknown = |found| CommitEvent::Unknown { found, message: "gone".to_string() };
    assert!(matches!(
        after_commit(0, r(), &context("d"), unknown(Some(r()))),
        CommitStep::Finish(Ok(_))
    ));
    match after_commit(0, r(), &context("e"), unknown(Some(r()))) {
        CommitStep::Finish(Err(e)) => assert_eq!(e.code, DomainErrorCode::KeyReuseDifferentInput),
        other => panic!("unexpected step: {:?}", other),
    }
    match after_commit(0, r(), &context("d"), unknown(None)) {
        CommitStep::Finish(Err(e)) => {
            assert_eq!(e.message, "commit outcome unknown and no receipt recorded: gone")
        }
        other => panic!("unexpected step: {:?}", other),
    }
}

#[test]
fn a_newer_store_is_not_opened() {
    assert!(matches!(check_schema_version(None), SchemaCheck::WriteCurrent));
    assert!(matches!(check_schema_version(Some(&1u64.to_le_bytes())), SchemaCheck::Supported));
    match check_schema_version(Some(&2u64.to_le_bytes())) {
        SchemaCheck::Refused(e) => assert_eq!(
            e.message,
            "refusing to open: store schema 2 is newer than supported 1"
        ),
        other => panic!("unexpected check: {:?}", other),
    }
    match check_schema_version(Some(&[1, 2])) {
        SchemaCheck::Refused(e) => assert_eq!(e.message, "corrupt schema version"),
        other => panic!("unexpected check: {:?}", other),
    }
}

#[test]
fn a_project_key_is_the_last_part_of_a_path() {
    let key = |raw: &str| normalize_project(raw);
    assert_eq!(key("  My-App  "), Some("my-app".to_string()));
    assert_eq!(key("/home/dev/Repo/"), Some("repo".to_string()));
    assert_eq!(key("C:\\work\\Repo\\\\"), Some("repo".to_string()));
    assert_eq!(key("a/ B "), Some("b".to_string()));
    for none in ["", "   ", "/", "//\\", "global", " GLOBAL ", "x/Global/", "x/ /"] {
        assert_eq!(key(none), None, "{none:?}");
    }
    for raw in ["  My-App  ", "/home/dev/Repo/", "a/ B ", "\u{130}stanbul/\u{39f}\u{3a3}"] {
        let once = key(raw).unwrap();
        assert_eq!(key(&once), Some(once.clone()));
    }
}
