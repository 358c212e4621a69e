use comstar::error::ErrorKind;
use comstar::pipeline::{Directive, ItemState, Pipeline, WIDTH};

#[test]
fn width_is_ten() {
    assert_eq!(WIDTH, 10);
}

#[test]
fn empty_run_finishes_at_once() {
    let mut p = Pipeline::new(0);
    assert_eq!(p.next_step(), Directive::Finished(Ok(())));
}

#[test]
fn items_start_in_order_up_to_the_width() {
    let mut p = Pipeline::new(25);
    for i in 0..10 {
        assert_eq!(p.next_step(), Directive::Start(i));
    }
    assert_eq!(p.in_flight(), 10);
    assert_eq!(p.next_step(), Directive::Wait);
    assert_eq!(p.state(9), Some(ItemState::Running));
    assert_eq!(p.state(10), Some(ItemState::Queued));
    assert_eq!(p.state(25), None);
}

#[test]
fn a_report_frees_a_permit() {
    let mut p = Pipeline::new(12);
    for _ in 0..10 {
        p.next_step();
    }
    assert!(p.complete(3, Ok(())));
    assert_eq!(p.in_flight(), 9);
    assert_eq!(p.next_step(), Directive::Start(10));
    assert_eq!(p.in_flight(), 10);
    assert_eq!(p.next_step(), Directive::Wait);
}

#[test]
fn items_are_joined_in_order() {
    let mut p = Pipeline::new(2);
    assert_eq!(p.next_step(), Directive::Start(0));
    assert_eq!(p.next_step(), Directive::Start(1));
    assert!(p.complete(1, Ok(())));
    assert_eq!(p.next_step(), Directive::Wait);
    assert!(p.complete(0, Ok(())));
    assert_eq!(p.next_step(), Directive::Joined(0));
    assert_eq!(p.next_step(), Directive::Joined(1));
    assert_eq!(p.next_step(), Directive::Finished(Ok(())));
    assert_eq!(p.next_step(), Directive::Finished(Ok(())));
}

#[test]
fn first_error_in_item_order_is_the_result() {
    let mut p = Pipeline::new(3);
    p.next_step();
    p.next_step();
    p.next_step();
    assert!(p.complete(2, Err(ErrorKind::Network)));
    assert!(p.complete(1, Err(ErrorKind::Io)));
    assert!(p.complete(0, Ok(())));
    assert_eq!(p.next_step(), Directive::Joined(0));
    assert_eq!(p.next_step(), Directive::Joined(1));
    assert_eq!(p.next_step(), Directive::Joined(2));
    assert_eq!(p.next_step(), Directive::Finished(Err(ErrorKind::Io)));
}

#[test]
fn a_failure_does_not_cancel_the_others() {
    let mut p = Pipeline::new(11);
    for _ in 0..10 {
        p.next_step();
    }
    assert!(p.complete(0, Err(ErrorKind::ChannelClosed)));
    assert_eq!(p.state(0), Some(ItemState::Failed(ErrorKind::ChannelClosed)));
    assert_eq!(p.next_step(), Directive::Start(10));
}

#[test]
fn reports_of_items_that_do_not_run_are_refused() {
    let mut p = Pipeline::new(2);
    assert!(!p.complete(0, Ok(())));
    assert!(!p.complete(7, Ok(())));
    p.next_step();
    assert!(p.complete(0, Ok(())));
    assert!(!p.complete(0, Err(ErrorKind::Io)));
    assert_eq!(p.state(0), Some(ItemState::Succeeded));
}

#[test]
fn whole_run_never_exceeds_the_width() {
    let n = 37;
    let mut p = Pipeline::new(n);
    let mut running: Vec<usize> = Vec::new();
    let mut joined = 0;
    loop {
        match p.next_step() {
            Directive::Start(i) => {
                running.push(i);
                assert!(running.len() <= WIDTH);
            }
            Directive::Joined(i) => {
                assert_eq!(i, joined);
                joined += 1;
            }
            Directive::Wait => {
                let i = running.remove(running.len() / 2);
                assert!(p.complete(i, if i == 20 { Err(ErrorKind::Network) } else { Ok(()) }));
            }
            Directive::Finished(r) => {
                assert_eq!(r, Err(ErrorKind::Network));
                break;
            }
        }
        assert_eq!(p.in_flight(), running.len());
    }
    assert_eq!(joined, n);
    assert_eq!(p.len(), n);
}
