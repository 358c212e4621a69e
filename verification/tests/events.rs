use comstar::events::{event_output, Event, RenderCommand, Renderer};

#[test]
fn unknown_file_started_has_no_size() {
    assert_eq!(
        Event::unknown_file_started("a.txt"),
        Event::FileStarted { name: "a.txt".to_string(), size: None }
    );
}

#[test]
fn file_started_carries_the_size() {
    assert_eq!(
        Event::file_started("a.txt", 1_048_576),
        Event::FileStarted { name: "a.txt".to_string(), size: Some(1_048_576) }
    );
}

#[test]
fn file_progress_carries_the_delta() {
    assert_eq!(
        Event::file_progress("a.txt", 4096),
        Event::FileProgress { name: "a.txt".to_string(), bytes: 4096 }
    );
}

#[test]
fn file_done_and_close() {
    assert_eq!(Event::file_done("a.txt"), Event::FileDone { name: "a.txt".to_string() });
    assert_eq!(Event::close(), Event::CloseStream);
}

#[test]
fn event_clone_is_equal() {
    let e = Event::file_started("b", 7);
    assert_eq!(e.clone(), e);
}

#[test]
fn renderer_starts_empty() {
    let r = Renderer::new("Validating files", 3);
    assert_eq!(r.total(), 3);
    assert_eq!(r.done(), 0);
    assert_eq!(r.in_flight(), 0);
    assert!(!r.is_closed());
}

#[test]
fn renderer_brackets_a_file() {
    let mut r = Renderer::new("Synchronizing files", 1);
    let shown = event_output(&mut r, Some(&Event::file_started("a.txt", 10)));
    assert_eq!(
        shown,
        RenderCommand::Show { name: "a.txt".to_string(), size: Some(10), replaces: false }
    );
    assert_eq!(r.in_flight(), 1);
    let advanced = event_output(&mut r, Some(&Event::file_progress("a.txt", 4)));
    assert_eq!(advanced, RenderCommand::Advance { name: "a.txt".to_string(), bytes: 4 });
    let finished = event_output(&mut r, Some(&Event::file_done("a.txt")));
    assert_eq!(finished, RenderCommand::Finish { name: "a.txt".to_string(), had_widget: true });
    assert_eq!(r.in_flight(), 0);
    assert_eq!(r.done(), 1);
}

#[test]
fn renderer_replaces_a_duplicate_start() {
    let mut r = Renderer::new("Pushing differences", 2);
    event_output(&mut r, Some(&Event::unknown_file_started("a")));
    let again = event_output(&mut r, Some(&Event::file_started("a", 5)));
    assert_eq!(again, RenderCommand::Show { name: "a".to_string(), size: Some(5), replaces: true });
    assert_eq!(r.in_flight(), 1);
}

#[test]
fn renderer_ignores_progress_of_an_unknown_file() {
    let mut r = Renderer::new("x", 1);
    let c = event_output(&mut r, Some(&Event::file_progress("ghost", 9)));
    assert_eq!(c, RenderCommand::Nothing);
    assert_eq!(r.in_flight(), 0);
}

#[test]
fn renderer_done_without_widget_still_advances_header() {
    let mut r = Renderer::new("x", 2);
    let c = event_output(&mut r, Some(&Event::file_done("never-started")));
    assert_eq!(c, RenderCommand::Finish { name: "never-started".to_string(), had_widget: false });
    assert_eq!(r.done(), 1);
}

#[test]
fn renderer_close_finishes_with_message() {
    let mut r = Renderer::new("Generating manifest", 2);
    event_output(&mut r, Some(&Event::unknown_file_started("a")));
    let c = event_output(&mut r, Some(&Event::close()));
    assert_eq!(c, RenderCommand::Close { message: "Generating manifest: Done.".to_string() });
    assert!(r.is_closed());
    assert_eq!(r.in_flight(), 0);
}

#[test]
fn renderer_channel_end_closes_too() {
    let mut r = Renderer::new("Validating files", 0);
    let c = event_output(&mut r, None);
    assert_eq!(c, RenderCommand::Close { message: "Validating files: Done.".to_string() });
    assert!(r.is_closed());
}

#[test]
fn renderer_stays_closed() {
    let mut r = Renderer::new("x", 1);
    event_output(&mut r, None);
    let c = event_output(&mut r, Some(&Event::file_done("a")));
    assert_eq!(c, RenderCommand::Nothing);
    assert_eq!(r.done(), 0);
}
