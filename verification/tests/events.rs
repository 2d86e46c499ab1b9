use otdr_viewer::events::{event_order, event_row_labels};

#[test]
fn events_are_ordered_by_distance_stably() {
    assert_eq!(event_order(&vec![5, 1, 5, 0]), vec![3, 1, 0, 2]);
    assert_eq!(event_order(&vec![]), Vec::<usize>::new());
    assert_eq!(event_order(&vec![7, 7, 7]), vec![0, 1, 2]);
    assert_eq!(event_order(&vec![-3, 10, -5]), vec![2, 0, 1]);
}

#[test]
fn first_row_is_the_launch_connector() {
    let kinds: Vec<String> = ["loss/drop/gain", "reflection", "reflection", "end of fiber"].iter().map(|s| s.to_string()).collect();
    let order = event_order(&vec![20, 0, 30, 40]);
    assert_eq!(order, vec![1, 0, 2, 3]);
    assert_eq!(event_row_labels(&kinds, &order), vec!["Разъём (старт)", "Сварной стык", "Разъём", "Конец волокна"]);
    let order = event_order(&vec![0, 10, 30, 40]);
    assert_eq!(event_row_labels(&kinds, &order)[0], "Сварной стык");
}
