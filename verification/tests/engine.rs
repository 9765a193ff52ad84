use scanolotl::ip::Ipv4;
use scanolotl::scanner::Scanner;

fn ips(n: u8) -> Vec<Ipv4> {
    (0..n).map(|d| Ipv4 { a: 10, b: 0, c: 0, d }).collect()
}

#[test]
fn scan_ordering_three_inputs() {
    // Three inputs, the window smaller than the list. Whatever each probe's
    // own pace was, completions are consumed in dispatch order, so output
    // follows input order and progress ticks once per input.
    let mut s = Scanner::new(ips(3), 2, 500);
    assert_eq!(s.dispatched, 2);
    assert_eq!(s.front(), Some(0));
    assert_eq!(s.on_complete(true), Some(2));
    assert_eq!(s.on_complete(true), None);
    assert_eq!(s.on_complete(true), None);
    assert!(s.done());
    assert_eq!(s.completed, 3);
    let out = s.output_ips();
    assert_eq!(out, ips(3));
}

#[test]
fn concurrency_never_exceeds_batch() {
    let mut s = Scanner::new(ips(7), 3, 500);
    assert!(s.dispatched - s.completed <= 3);
    while !s.done() {
        s.on_complete(true);
        assert!(s.dispatched - s.completed <= 3);
    }
    assert_eq!(s.completed, 7);
}

#[test]
fn failures_tick_progress_but_leave_no_output() {
    let mut s = Scanner::new(ips(4), 2, 500);
    s.on_complete(false);
    s.on_complete(true);
    s.on_complete(false);
    s.on_complete(true);
    assert!(s.done());
    assert_eq!(s.completed, 4);
    let out = s.output_ips();
    assert_eq!(
        out,
        vec![Ipv4 { a: 10, b: 0, c: 0, d: 1 }, Ipv4 { a: 10, b: 0, c: 0, d: 3 }]
    );
}

#[test]
fn window_wider_than_input() {
    let mut s = Scanner::new(ips(2), 3000, 500);
    assert_eq!(s.dispatched, 2);
    assert_eq!(s.on_complete(true), None);
    assert_eq!(s.on_complete(true), None);
    assert!(s.done());
    assert_eq!(s.completed, 2);
}

#[test]
fn empty_input_is_done_at_once() {
    let s = Scanner::new(Vec::new(), 3000, 500);
    assert!(s.done());
    assert_eq!(s.completed, 0);
    assert_eq!(s.output_ips(), Vec::<Ipv4>::new());
}
