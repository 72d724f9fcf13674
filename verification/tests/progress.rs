use pkgmk::progress::ProgressReader;

#[test]
fn reports_counts_to_the_receiver() {
    let (tx, rx) = std::sync::mpsc::channel();
    let mut p = ProgressReader::new(vec![1u8, 2, 3], tx);
    assert_eq!(p.report(3), 3);
    assert_eq!(p.report(0), 0);
    p.inner_mut().push(4);
    assert_eq!(p.inner_mut().len(), 4);
    drop(p);
    assert_eq!(rx.iter().collect::<Vec<_>>(), vec![3, 0]);
}

#[test]
fn reporting_without_a_receiver_is_harmless() {
    let (tx, rx) = std::sync::mpsc::channel::<usize>();
    drop(rx);
    let mut p = ProgressReader::new((), tx);
    assert_eq!(p.report(5), 5);
}
