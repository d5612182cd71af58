use class_schedule::weeks::decode_weeks;
use class_schedule::weeks::encode_weeks;

#[test]
fn encode_simple_list() {
    assert_eq!(encode_weeks(&vec![1, 3, 5]), "[1,3,5]");
}

#[test]
fn encode_empty_list() {
    assert_eq!(encode_weeks(&vec![]), "[]");
}

#[test]
fn encode_negative_and_zero() {
    assert_eq!(encode_weeks(&vec![-2, 0, 10]), "[-2,0,10]");
}

#[test]
fn encode_extremes() {
    assert_eq!(
        encode_weeks(&vec![i32::MIN, i32::MAX]),
        "[-2147483648,2147483647]"
    );
}

#[test]
fn encode_matches_json_writer() {
    // The storage text form is the JSON array form; serde_json is the
    // writer the rest of the system uses for such values.
    for ws in [
        vec![],
        vec![0],
        vec![1, 3, 5],
        vec![-7, 42, -100000],
        vec![i32::MIN, -1, 0, 1, i32::MAX],
        vec![16, 17, 18, 19, 20],
    ] {
        assert_eq!(
            encode_weeks(&ws),
            serde_json::to_string(&ws).unwrap(),
            "week list {:?}",
            ws
        );
    }
}

#[test]
fn decode_simple_list() {
    assert_eq!(decode_weeks("[1,3,5]"), vec![1, 3, 5]);
}

#[test]
fn decode_empty_list() {
    assert_eq!(decode_weeks("[]"), Vec::<i32>::new());
}

#[test]
fn decode_tolerates_whitespace() {
    assert_eq!(decode_weeks(" [ 1 ,\t2 ,\n3 ] "), vec![1, 2, 3]);
}

#[test]
fn decode_negative_values() {
    assert_eq!(decode_weeks("[-1,-2147483648]"), vec![-1, i32::MIN]);
}

#[test]
fn decode_garbage_falls_back_to_empty() {
    assert_eq!(decode_weeks("not a list"), Vec::<i32>::new());
    assert_eq!(decode_weeks(""), Vec::<i32>::new());
    assert_eq!(decode_weeks("{\"a\":1}"), Vec::<i32>::new());
}

#[test]
fn decode_truncated_list_falls_back_to_empty() {
    assert_eq!(decode_weeks("[1,2"), Vec::<i32>::new());
    assert_eq!(decode_weeks("[1,]"), Vec::<i32>::new());
    assert_eq!(decode_weeks("["), Vec::<i32>::new());
}

#[test]
fn decode_trailing_text_falls_back_to_empty() {
    assert_eq!(decode_weeks("[1]x"), Vec::<i32>::new());
    assert_eq!(decode_weeks("[1] []"), Vec::<i32>::new());
}

#[test]
fn decode_accepts_negative_zero_and_spaced_empty() {
    assert_eq!(decode_weeks("[-0]"), vec![0]);
    assert_eq!(decode_weeks("[ ]"), Vec::<i32>::new());
}

#[test]
fn decode_rejects_leading_zeros() {
    assert_eq!(decode_weeks("[01]"), Vec::<i32>::new());
    assert_eq!(decode_weeks("[0]"), vec![0]);
}

#[test]
fn decode_out_of_range_falls_back_to_empty() {
    assert_eq!(decode_weeks("[2147483648]"), Vec::<i32>::new());
    assert_eq!(decode_weeks("[2147483647]"), vec![i32::MAX]);
    assert_eq!(decode_weeks("[-2147483649]"), Vec::<i32>::new());
    assert_eq!(decode_weeks("[99999999999999999999]"), Vec::<i32>::new());
}

#[test]
fn decode_agrees_with_json_reader_on_well_formed_lists() {
    for text in ["[1,2,3]", "[0]", "[-5, 6]", "[]", " [7,8] "] {
        let expected: Vec<i32> = serde_json::from_str(text).unwrap();
        assert_eq!(decode_weeks(text), expected, "text {:?}", text);
    }
}

#[test]
fn round_trip_is_identity() {
    for ws in [
        vec![],
        vec![0],
        vec![1, 3, 5],
        vec![-1, i32::MIN, i32::MAX, 0, 7],
        (1..=30).collect::<Vec<i32>>(),
    ] {
        assert_eq!(decode_weeks(&encode_weeks(&ws)), ws, "week list {:?}", ws);
    }
}
