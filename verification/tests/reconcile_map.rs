use texspell::offset_map::{build_offset_map, OffsetMap};
use texspell::reconcile::{reconcile, reconcile_all};
use texspell::server::Match;

fn diag(offset: usize, length: usize) -> Match {
    Match {
        message: "m".to_string(),
        word: "w".to_string(),
        offset,
        length,
        replacements: vec![],
    }
}

#[test]
fn translate_exact_hit() {
    let m = OffsetMap { pairs: vec![(0, 0), (5, 9), (10, 14)], doc_len: 20 };
    assert_eq!(m.translate(5), (9, true));
    assert_eq!(m.translate(10), (14, true));
}

#[test]
fn translate_gap_falls_back_to_nearest_preceding() {
    // No anchor for position 50: the nearest preceding anchor (10 -> 20)
    // answers, and the answer is flagged inexact.
    let m = OffsetMap { pairs: vec![(0, 0), (10, 20), (60, 100)], doc_len: 200 };
    assert_eq!(m.translate(50), (20, false));
}

#[test]
fn translate_before_first_anchor() {
    let m = OffsetMap { pairs: vec![(10, 20)], doc_len: 50 };
    assert_eq!(m.translate(3), (0, false));
}

#[test]
fn reconcile_one_to_one_span_keeps_length() {
    // Identity anchors across the span: document length equals the
    // diagnostic's own length, and nothing is approximate.
    let pairs: Vec<(usize, usize)> = (0..10).map(|i| (i, i)).collect();
    let m = OffsetMap { pairs, doc_len: 10 };
    let r = reconcile(diag(2, 3), &m);
    assert_eq!(r.document_offset, 2);
    assert_eq!(r.document_length, 3);
    assert!(!r.approximate);
}

#[test]
fn reconcile_gap_is_marked_approximate() {
    let m = OffsetMap { pairs: vec![(0, 0), (10, 20), (60, 100)], doc_len: 200 };
    let r = reconcile(diag(50, 5), &m);
    assert_eq!(r.document_offset, 20);
    assert!(r.approximate);
}

#[test]
fn reconcile_markup_stretches_document_span() {
    // One plain character hides five document characters of markup: the
    // document span is longer than the plain span.
    let m = OffsetMap { pairs: vec![(0, 0), (1, 5), (2, 6)], doc_len: 10 };
    let r = reconcile(diag(0, 2), &m);
    assert_eq!(r.document_offset, 0);
    assert_eq!(r.document_length, 6);
    assert!(!r.approximate);
}

#[test]
fn reconcile_twice_gives_identical_results() {
    let m = OffsetMap { pairs: vec![(0, 0), (10, 20), (60, 100)], doc_len: 200 };
    let a = reconcile(diag(50, 5), &m);
    let b = reconcile(diag(50, 5), &m);
    assert_eq!(a.document_offset, b.document_offset);
    assert_eq!(a.document_length, b.document_length);
    assert_eq!(a.approximate, b.approximate);
    // And reconciling the carried diagnostic again changes nothing.
    let c = reconcile(a.diagnostic, &m);
    assert_eq!(c.document_offset, b.document_offset);
    assert_eq!(c.document_length, b.document_length);
    assert_eq!(c.approximate, b.approximate);
}

#[test]
fn reconcile_all_keeps_order_and_count() {
    let m = OffsetMap { pairs: vec![(0, 0), (1, 1), (2, 2), (3, 3), (4, 4)], doc_len: 5 };
    let ds = vec![diag(3, 1), diag(0, 2)];
    let rs = reconcile_all(ds, &m);
    assert_eq!(rs.len(), 2);
    assert_eq!(rs[0].document_offset, 3);
    assert_eq!(rs[1].document_offset, 0);
}

#[test]
fn build_map_identity_when_texts_agree() {
    let doc: Vec<char> = "abc".chars().collect();
    let plain: Vec<char> = "abc".chars().collect();
    let m = build_offset_map(&doc, &plain);
    assert_eq!(m.doc_len, 3);
    assert_eq!(m.translate(0), (0, true));
    assert_eq!(m.translate(1), (1, true));
    assert_eq!(m.translate(2), (2, true));
}

#[test]
fn build_map_skips_markup_in_document() {
    // The document holds "%b" that the plain text does not: the anchors
    // jump over it.
    let doc: Vec<char> = "a%bc".chars().collect();
    let plain: Vec<char> = "ac".chars().collect();
    let m = build_offset_map(&doc, &plain);
    assert_eq!(m.translate(0), (0, true));
    // 'c' of the plain text anchors to position 3 of the document.
    assert_eq!(m.translate(1), (3, true));
}
