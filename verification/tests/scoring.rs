use porker::{calc_score, Response, ResultRole, SCORE_SHEET};

#[test]
fn the_score_sheet() {
    assert_eq!(SCORE_SHEET, [1, 5, 10, 20, 100, 150, 200, 500, 800, 1500]);
}

#[test]
fn no_hand_scores_nothing() {
    assert_eq!(calc_score(&[0; 10]), 0);
}

#[test]
fn one_hand_of_each_role_scores_the_sheet() {
    for i in 0..10 {
        let mut role_count = [0u32; 10];
        role_count[i] = 1;
        assert_eq!(calc_score(&role_count), SCORE_SHEET[i] as u64);
    }
    assert_eq!(calc_score(&[1; 10]), 3286);
}

#[test]
fn the_score_is_the_dot_product() {
    assert_eq!(
        calc_score(&[10, 9, 8, 7, 6, 5, 4, 3, 2, 1]),
        10 + 45 + 80 + 140 + 600 + 750 + 800 + 1500 + 1600 + 1500
    );
    assert_eq!(calc_score(&[10, 9, 8, 7, 6, 5, 4, 3, 2, 1]), 7025);
    assert_eq!(
        calc_score(&[501_177, 422_569, 47_539, 21_128, 240, 1_441, 1_965, 3_925, 14, 2]),
        501_177 + 2_112_845 + 475_390 + 422_560 + 24_000 + 216_150 + 393_000 + 1_962_500
            + 11_200 + 3_000
    );
}

#[test]
fn the_score_of_the_largest_counters_is_exact() {
    assert_eq!(calc_score(&[u32::MAX; 10]), 4_294_967_295u64 * 3286);
    let mut role_count = [0u32; 10];
    role_count[9] = 10_000_000;
    assert_eq!(calc_score(&role_count), 15_000_000_000);
}

#[test]
fn the_response_names_each_counter() {
    let response = Response::new(77, 55, 1234, [1, 2, 3, 4, 5, 6, 7, 8, 9, 10]);
    assert_eq!(response.score, 77);
    assert_eq!(response.total_num_of_atempt, 55);
    assert_eq!(response.time_ms, 1234);
    assert_eq!(
        response.result,
        ResultRole {
            nopair: 1,
            onepair: 2,
            twopair: 3,
            threepair: 4,
            fourpair: 5,
            fulhouse: 6,
            flush: 7,
            strait: 8,
            straitflush: 9,
            royalflush: 10,
        }
    );
}
