use rustplot::parser::{reg_match, vec_remove_where, vec_keep_where};

#[test]
fn reg_match_tests() {
    let vec_1: Vec<String> = vec![
        String::from("123456789"),
        String::from("12345"),
        String::from("123567"),
        String::from("6830498"),
        String::from("5937468"),
    ];
    let result = vec![3, 4];
    let reg_res = reg_match(&vec_1, r"^.*(68)+.*$").unwrap();
    assert_eq!(reg_res, result);
}

#[test]
fn remove_where_tests() {
    let vec_1: Vec<f64> = vec![2.0, 7.0, 6.0, 4.0, 10.0];
    let index_1 = vec![0, 2, 3];
    let result_1 = vec![7.0, 10.0];
    let rm_res_1 = vec_remove_where(&vec_1, &index_1);
    assert_eq!(rm_res_1, result_1);

    let vec_2: Vec<String> = vec![
        String::from("123456789"),
        String::from("12345"),
        String::from("123567"),
        String::from("6830498"),
        String::from("5937468"),
    ];
    let index_2 = vec![0, 2, 3];
    let result_2 = vec![String::from("12345"), String::from("5937468")];
    let rm_res_2 = vec_remove_where(&vec_2, &index_2);
    assert_eq!(rm_res_2, result_2);
}

#[test]
fn keep_where_tests() {
    let vec_1: Vec<f64> = vec![2.0, 7.0, 6.0, 4.0, 10.0];
    let index_1 = vec![0, 2, 3];
    let result_1 = vec![2.0, 6.0, 4.0];
    let kp_res_1 = vec_keep_where(&vec_1, &index_1);
    assert_eq!(kp_res_1, result_1);

    let vec_2: Vec<String> = vec![
        String::from("123456789"),
        String::from("12345"),
        String::from("123567"),
        String::from("6830498"),
        String::from("5937468"),
    ];
    let index_2 = vec![0, 2, 3];
    let result_2 = vec![
        String::from("123456789"),
        String::from("123567"),
        String::from("6830498"),
    ];
    let kp_res_2 = vec_keep_where(&vec_2, &index_2);
    assert_eq!(kp_res_2, result_2);
}

#[test]
fn reg_match_malformed_pattern() {
    let vec_1: Vec<String> = vec![String::from("abc")];
    assert!(reg_match(&vec_1, r"((").is_none());
}

#[test]
fn reg_match_empty_vector_ignores_pattern() {
    let empty: Vec<String> = Vec::new();
    // The pattern is compiled per element; no element, no failure.
    assert_eq!(reg_match(&empty, r"(("), Some(Vec::new()));
}

#[test]
fn reg_match_matches_each_element() {
    let vec_1: Vec<String> = vec![
        String::from("cat"),
        String::from("dog"),
        String::from("catalog"),
    ];
    assert_eq!(reg_match(&vec_1, "cat").unwrap(), vec![0, 2]);
    assert_eq!(reg_match(&vec_1, "^dog$").unwrap(), vec![1]);
    assert_eq!(reg_match(&vec_1, "fish").unwrap(), Vec::<usize>::new());
}
