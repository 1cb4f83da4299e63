use gaming::utils::drawing::{
    axis_label, file_name, file_name_from_lowercase, index_from_segment, Segment,
};

#[test]
fn index_from_segment_reads_the_mark() {
    assert_eq!(index_from_segment(&Segment::Exact(0)), 0);
    assert_eq!(index_from_segment(&Segment::Exact(7)), 7);
    assert_eq!(index_from_segment(&Segment::CenterOf(3)), 3);
    assert_eq!(index_from_segment(&Segment::Last), i32::MAX as usize);
}

#[test]
fn axis_label_names_the_actor_and_is_empty_behind_the_last() {
    let names = vec!["Rocker".to_string(), "Paperer".to_string()];
    assert_eq!(axis_label(&names, &Segment::Exact(0)), "Rocker");
    assert_eq!(axis_label(&names, &Segment::CenterOf(1)), "Paperer");
    assert_eq!(axis_label(&names, &Segment::Exact(2)), "");
    assert_eq!(axis_label(&Vec::new(), &Segment::CenterOf(0)), "");
}

#[test]
fn file_name_is_lower_case_with_underscores() {
    assert_eq!(file_name("Rock Paper Scissors"), "stats/rock_paper_scissors.png");
    assert_eq!(file_name("OffiziersSkat"), "stats/offiziersskat.png");
    assert_eq!(file_name(""), "stats/.png");
    assert_eq!(file_name("A\tB\nC  D"), "stats/a_b_c__d.png");
    assert_eq!(file_name("ÄÖ Ü"), "stats/äö_ü.png");
}

#[test]
fn file_name_from_lowercase_keeps_the_case_it_is_given() {
    assert_eq!(file_name_from_lowercase("a b"), "stats/a_b.png");
    assert_eq!(file_name_from_lowercase("A b"), "stats/A_b.png");
    assert_eq!(file_name_from_lowercase("x\u{3000}y"), "stats/x_y.png");
}
