use goombay_rs::align::AlignmentData;
use goombay_rs::align::NeedlemanWunsch;
use goombay_rs::align::PointerValues;
use goombay_rs::align::Scoring;
use goombay_rs::align::SmithWaterman;
use goombay_rs::align::WagnerFischer;
use goombay_rs::scoring::ExtendedGapScoring;
use goombay_rs::scoring::GeneralScoring;
use goombay_rs::scoring::LevenshteinScoring;
use goombay_rs::scoring::Scoring as ScoringPolicy;
use goombay_rs::scoring::TransposeScoring;

#[test]
fn test_pointer_values() {
    assert_eq!(PointerValues::Match.value(), 2);
    assert_eq!(PointerValues::Up.value(), 3);
    assert_eq!(PointerValues::Left.value(), 4);
    assert_eq!(PointerValues::Transpose.value(), 8);
}

#[test]
fn test_scoring_policies() {
    let lev = LevenshteinScoring { substitution: 3, gap: 2 };
    assert_eq!(lev.get_match_score(), 0);
    assert_eq!(lev.get_mismatch_score(), 3);
    assert_eq!(lev.get_gap_score(), 2);
    assert_eq!(lev.get_extended_gap_score(), 0);
    assert_eq!(lev.get_transpose_score(), 0);

    let gen = GeneralScoring { identity: 5, mismatch: 4, gap: 3 };
    assert_eq!(gen.get_match_score(), 5);
    assert_eq!(gen.get_mismatch_score(), 4);
    assert_eq!(gen.get_gap_score(), 3);
    assert_eq!(gen.get_extended_gap_score(), 0);
    assert_eq!(gen.get_transpose_score(), 0);

    let tr = TransposeScoring { identity: 5, mismatch: 4, gap: 3, transpose: 2 };
    assert_eq!(tr.get_transpose_score(), 2);
    assert_eq!(tr.get_extended_gap_score(), 0);

    let ex = ExtendedGapScoring { identity: 5, mismatch: 4, gap: 3, extended_gap: 1 };
    assert_eq!(ex.get_extended_gap_score(), 1);
    assert_eq!(ex.get_transpose_score(), 0);
}

#[test]
fn test_uppercasing_on_construction() {
    let data = AlignmentData::new("acGt", "ACgT");
    assert_eq!(data.query, vec!['A', 'C', 'G', 'T']);
    assert_eq!(data.subject, vec!['A', 'C', 'G', 'T']);
    assert!(!data.is_built);
}

#[test]
fn test_normalized_ratio_parts() {
    // identity 2, mismatch 1, gap 1 on AAAA vs TTTT: raw similarity -4,
    // worst bound 4, best bound 8, so the exact ratio is 0 / 12.
    let scores = Scoring {
        identity: 2,
        mismatch: 1,
        gap: 1,
        transpose: None,
        extended_gap: None,
    };
    let nw = NeedlemanWunsch::new(&scores);
    let mut data = AlignmentData::new("AAAA", "TTTT");
    let ns = nw.normalized_similarity(&mut data);
    assert_eq!(ns.numerator, 0);
    assert_eq!(ns.denominator, 12);
    let nd = nw.normalized_distance(&mut data);
    assert_eq!(nd.numerator, 12);
    assert_eq!(nd.denominator, 12);
}

#[test]
fn test_wf_normalized_ratio_parts() {
    // substitution 1, gap 1 on ACTG vs ACTB: distance 1 over length 4.
    let wf = WagnerFischer::compute("ACTG", "ACTB");
    let nd = wf.normalized_distance();
    assert_eq!(nd.numerator, 1);
    assert_eq!(nd.denominator, 4);
    let ns = wf.normalized_similarity();
    assert_eq!(ns.numerator, 3);
    assert_eq!(ns.denominator, 4);
}

#[test]
fn test_nw_try_compute() {
    let maybe = NeedlemanWunsch::try_compute("ACTG", "ACTG");
    let model = maybe.expect("small inputs are always within bounds");
    assert_eq!(model.similarity(), 8);
    assert_eq!(model.distance(), 0);
    assert_eq!(model.align()[0], "ACTG\nACTG");

    let direct = NeedlemanWunsch::compute("ACTG", "ACTG");
    assert_eq!(direct.similarity(), model.similarity());
}

#[test]
fn test_wf_try_compute() {
    let maybe = WagnerFischer::try_compute("ACTG", "ACT");
    let model = maybe.expect("small inputs are always within bounds");
    assert_eq!(model.distance(), 1);
    assert_eq!(model.similarity(), 3);
}

#[test]
fn test_sw_try_compute() {
    let maybe = SmithWaterman::try_compute("AAACTGAA", "TTTACTGTT");
    let model = maybe.expect("small inputs are always within bounds");
    assert_eq!(model.similarity(), 8);
    assert_eq!(model.align()[0], "ACTG\nACTG");
}

#[test]
fn test_data_accessors() {
    let nw = NeedlemanWunsch::default();
    let mut data = AlignmentData::new("AC", "AC");
    nw.build(&mut data);
    assert!(data.is_built);
    // default scoring: identity 2, gap 2; terminal cell of the score matrix
    let sm = data.score_matrix();
    assert_eq!(sm[(2, 2)], 4);
    let pm = data.pointer_matrix();
    // origin is seeded with the left flag
    assert_eq!(pm[(0, 0)], 4);
    // border cells point up along column zero and left along row zero
    assert_eq!(pm[(1, 0)], 3);
    assert_eq!(pm[(0, 1)], 4);

    let copy = data.duplicate();
    assert_eq!(copy.query, data.query);
    assert_eq!(copy.is_built, data.is_built);
    assert_eq!(copy.score_matrix[0], data.score_matrix[0]);
    assert_eq!(copy.pointer_matrix[0], data.pointer_matrix[0]);
}

#[test]
fn test_rebuild_is_skipped_after_build() {
    // align on an already built data model must not rebuild: building with
    // one scoring and aligning through another instance keeps the first
    // instance's matrices.
    let generous = Scoring {
        identity: 5,
        mismatch: 1,
        gap: 1,
        transpose: None,
        extended_gap: None,
    };
    let plain = Scoring {
        identity: 2,
        mismatch: 1,
        gap: 1,
        transpose: None,
        extended_gap: None,
    };
    let mut data = AlignmentData::new("ACTG", "ACTG");
    NeedlemanWunsch::new(&generous).build(&mut data);
    assert_eq!(data.score_matrix()[(4, 4)], 20);
    let _ = NeedlemanWunsch::new(&plain).align(&mut data, false);
    assert_eq!(data.score_matrix()[(4, 4)], 20);
}

#[test]
fn test_sw_tracks_tied_endpoints() {
    let sw = SmithWaterman::compute("ACTGNNNACTG", "ACTG");
    assert_eq!(sw.max_score, 8);
    assert_eq!(sw.start_indices, vec![(4, 4), (11, 4)]);
    // single-alignment mode yields exactly one of the tied matches
    assert_eq!(sw.align().len(), 1);
}

#[test]
fn test_sw_empty_inputs() {
    let sw = SmithWaterman::compute("", "");
    assert_eq!(sw.similarity(), 0);
    assert!(sw.align().is_empty());
    assert!(sw.start_indices.is_empty());
}

#[test]
fn test_model_flag_copy() {
    let wf = WagnerFischer::compute("ACCG", "ACG");
    assert!(!wf.all_alignments);
    let all = wf.all_alignments(true);
    assert!(all.all_alignments);
    assert_eq!(all.mismatch, wf.mismatch);
    assert_eq!(all.distance(), wf.distance());
    assert_eq!(wf.align().len(), 1);
    assert_eq!(all.align().len(), 2);
}
