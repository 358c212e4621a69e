//! Progress events and the bookkeeping of the progress display.

use vstd::prelude::*;

verus! {

/// One message from a worker to the progress display.
#[derive(Debug, PartialEq, Eq)]
pub enum Event {
    CloseStream,
    FileStarted { name: String, size: Option<u64> },
    FileProgress { name: String, bytes: u64 },
    FileDone { name: String },
}

/// The mathematical value of an [`Event`].
pub enum EventView {
    CloseStream,
    FileStarted { name: Seq<char>, size: Option<u64> },
    FileProgress { name: Seq<char>, bytes: u64 },
    FileDone { name: Seq<char> },
}

impl View for Event {
    type V = EventView;

    open spec fn view(&self) -> EventView {
        match self {
            Event::CloseStream => EventView::CloseStream,
            Event::FileStarted { name, size } => EventView::FileStarted { name: name@, size: *size },
            Event::FileProgress { name, bytes } => EventView::FileProgress {
                name: name@,
                bytes: *bytes,
            },
            Event::FileDone { name } => EventView::FileDone { name: name@ },
        }
    }
}

impl Event {
    /// A file whose size is not known has started.
    pub fn unknown_file_started(name: &str) -> (e: Event)
        ensures
            e@ == (EventView::FileStarted { name: name@, size: None }),
    {
        Event::FileStarted { name: name.to_owned(), size: None }
    }

    /// A file of `size` bytes has started.
    pub fn file_started(name: &str, size: u64) -> (e: Event)
        ensures
            e@ == (EventView::FileStarted { name: name@, size: Some(size) }),
    {
        Event::FileStarted { name: name.to_owned(), size: Some(size) }
    }

    /// `delta_bytes` more bytes of the file have been handled.
    pub fn file_progress(name: &str, delta_bytes: u64) -> (e: Event)
        ensures
            e@ == (EventView::FileProgress { name: name@, bytes: delta_bytes }),
    {
        Event::FileProgress { name: name.to_owned(), bytes: delta_bytes }
    }

    /// The file is finished, whether its work succeeded or failed.
    pub fn file_done(name: &str) -> (e: Event)
        ensures
            e@ == (EventView::FileDone { name: name@ }),
    {
        Event::FileDone { name: name.to_owned() }
    }

    /// No further event follows.
    pub fn close() -> (e: Event)
        ensures
            e@ == EventView::CloseStream,
    {
        Event::CloseStream
    }
}

impl Clone for Event {
    fn clone(&self) -> (e: Event)
        ensures
            e@ == self@,
    {
        match self {
            Event::CloseStream => Event::CloseStream,
            Event::FileStarted { name, size } => Event::FileStarted {
                name: name.clone(),
                size: *size,
            },
            Event::FileProgress { name, bytes } => Event::FileProgress {
                name: name.clone(),
                bytes: *bytes,
            },
            Event::FileDone { name } => Event::FileDone { name: name.clone() },
        }
    }
}

/// The progress of one file in flight.
#[derive(Debug, PartialEq, Eq)]
pub struct Widget {
    /// The name under which the file is shown.
    pub name: String,
    /// The file's size where it is known: a byte meter; else a spinner.
    pub size: Option<u64>,
    /// The bytes handled so far.
    pub position: u64,
}

/// The mathematical value of a [`Widget`].
pub struct WidgetView {
    pub name: Seq<char>,
    pub size: Option<u64>,
    pub position: u64,
}

impl View for Widget {
    type V = WidgetView;

    open spec fn view(&self) -> WidgetView {
        WidgetView { name: self.name@, size: self.size, position: self.position }
    }
}

impl Clone for Widget {
    fn clone(&self) -> (w: Widget)
        ensures
            w@ == self@,
    {
        Widget { name: self.name.clone(), size: self.size, position: self.position }
    }
}

/// The values of a run of widgets.
pub open spec fn widget_views(ws: Seq<Widget>) -> Seq<WidgetView> {
    ws.map_values(|w: Widget| w@)
}

/// What the display shows.
pub struct RendererView {
    /// The label of the header.
    pub action: Seq<char>,
    /// The number of files that the header counts up to.
    pub total: u64,
    /// The number of files that are done.
    pub done: u64,
    /// The files in flight, in the order in which they started.
    pub widgets: Seq<WidgetView>,
    /// The display was closed.
    pub closed: bool,
}

/// What the display driver is told to do.
#[derive(Debug, PartialEq, Eq)]
pub enum RenderCommand {
    /// Show a widget for the file; `replaces` says that one was shown for
    /// the same name, which this one takes the place of.
    Show { name: String, size: Option<u64>, replaces: bool },
    /// Advance the file's widget by `bytes`.
    Advance { name: String, bytes: u64 },
    /// Advance the header by one; `had_widget` says that the file has a
    /// widget, which is cleared.
    Finish { name: String, had_widget: bool },
    /// Clear what is shown and finish the header with `message`.
    Close { message: String },
    /// Nothing changes.
    Nothing,
}

/// The mathematical value of a [`RenderCommand`].
pub enum RenderCommandView {
    Show { name: Seq<char>, size: Option<u64>, replaces: bool },
    Advance { name: Seq<char>, bytes: u64 },
    Finish { name: Seq<char>, had_widget: bool },
    Close { message: Seq<char> },
    Nothing,
}

impl View for RenderCommand {
    type V = RenderCommandView;

    open spec fn view(&self) -> RenderCommandView {
        match self {
            RenderCommand::Show { name, size, replaces } => RenderCommandView::Show {
                name: name@,
                size: *size,
                replaces: *replaces,
            },
            RenderCommand::Advance { name, bytes } => RenderCommandView::Advance {
                name: name@,
                bytes: *bytes,
            },
            RenderCommand::Finish { name, had_widget } => RenderCommandView::Finish {
                name: name@,
                had_widget: *had_widget,
            },
            RenderCommand::Close { message } => RenderCommandView::Close { message: message@ },
            RenderCommand::Nothing => RenderCommandView::Nothing,
        }
    }
}

/// Some widget is shown under `name`.
pub open spec fn has_widget(ws: Seq<WidgetView>, name: Seq<char>) -> bool {
    exists|i: int| 0 <= i < ws.len() && #[trigger] ws[i].name == name
}

/// The widgets without those shown under `name`.
pub open spec fn without_widget(ws: Seq<WidgetView>, name: Seq<char>) -> Seq<WidgetView>
    decreases ws.len(),
{
    if ws.len() == 0 {
        Seq::empty()
    } else if ws.last().name == name {
        without_widget(ws.drop_last(), name)
    } else {
        without_widget(ws.drop_last(), name).push(ws.last())
    }
}

/// The sum of two counts, held at the largest count.
pub open spec fn capped_sum(a: u64, b: u64) -> u64 {
    if a + b > u64::MAX {
        u64::MAX
    } else {
        (a + b) as u64
    }
}

/// The widgets with those shown under `name` advanced by `bytes`.
pub open spec fn advanced_widgets(ws: Seq<WidgetView>, name: Seq<char>, bytes: u64) -> Seq<
    WidgetView,
> {
    ws.map_values(
        |w: WidgetView|
            if w.name == name {
                WidgetView { name: w.name, size: w.size, position: capped_sum(w.position, bytes) }
            } else {
                w
            },
    )
}

/// The message that finishes the header.
pub open spec fn done_message(action: Seq<char>) -> Seq<char> {
    action + ": Done."@
}

/// What an event does to the display and what the driver is told; `None`
/// stands for the end of the channel.
///
/// A started file gets a widget, in place of any under the same name.
/// Progress advances the file's widget, if it has one. A finished file
/// advances the header by one and loses its widget. The close event and the
/// end of the channel clear the widgets and finish the header. A display
/// that was closed stays as it is.
pub open spec fn render_step(r: RendererView, event: Option<EventView>) -> (
    RendererView,
    RenderCommandView,
) {
    if r.closed {
        (r, RenderCommandView::Nothing)
    } else {
        match event {
            None | Some(EventView::CloseStream) => (
                RendererView { widgets: Seq::empty(), closed: true, ..r },
                RenderCommandView::Close { message: done_message(r.action) },
            ),
            Some(EventView::FileStarted { name, size }) => (
                RendererView {
                    widgets: without_widget(r.widgets, name).push(
                        WidgetView { name, size, position: 0 },
                    ),
                    ..r
                },
                RenderCommandView::Show { name, size, replaces: has_widget(r.widgets, name) },
            ),
            Some(EventView::FileProgress { name, bytes }) => (
                RendererView { widgets: advanced_widgets(r.widgets, name, bytes), ..r },
                if has_widget(r.widgets, name) {
                    RenderCommandView::Advance { name, bytes }
                } else {
                    RenderCommandView::Nothing
                },
            ),
            Some(EventView::FileDone { name }) => (
                RendererView {
                    widgets: without_widget(r.widgets, name),
                    done: capped_sum(r.done, 1),
                    ..r
                },
                RenderCommandView::Finish { name, had_widget: has_widget(r.widgets, name) },
            ),
        }
    }
}

/// No widget is left under a name that was taken out, and the widgets under
/// other names stay.
pub proof fn lemma_without_widget(ws: Seq<WidgetView>, name: Seq<char>)
    ensures
        !has_widget(without_widget(ws, name), name),
        forall|other: Seq<char>|
            other != name ==> (#[trigger] has_widget(without_widget(ws, name), other)
                <==> has_widget(ws, other)),
    decreases ws.len(),
{
    let out = without_widget(ws, name);
    if ws.len() > 0 {
        let rest = ws.drop_last();
        let kept = without_widget(rest, name);
        lemma_without_widget(rest, name);
        if has_widget(out, name) {
            let i = choose|i: int| 0 <= i < out.len() && #[trigger] out[i].name == name;
            if i < kept.len() {
                assert(kept[i].name == name);
            }
        }
        assert forall|other: Seq<char>| other != name implies (#[trigger] has_widget(out, other)
            <==> has_widget(ws, other)) by {
            if has_widget(out, other) {
                let i = choose|i: int| 0 <= i < out.len() && #[trigger] out[i].name == other;
                if i < kept.len() {
                    assert(kept[i].name == other);
                    assert(has_widget(kept, other));
                    assert(has_widget(rest, other));
                    let j = choose|j: int| 0 <= j < rest.len() && #[trigger] rest[j].name == other;
                    assert(ws[j].name == other);
                } else {
                    assert(ws[ws.len() - 1].name == other);
                }
            }
            if has_widget(ws, other) {
                let j = choose|j: int| 0 <= j < ws.len() && #[trigger] ws[j].name == other;
                if j < rest.len() {
                    assert(rest[j].name == other);
                    assert(has_widget(kept, other));
                    let i = choose|i: int|
                        0 <= i < kept.len() && #[trigger] kept[i].name == other;
                    assert(out[i].name == other);
                } else {
                    assert(out[out.len() - 1].name == other);
                }
            }
        }
    }
}

/// A finished file advances the header by one and has no widget afterwards,
/// whatever was shown before.
pub proof fn law_file_done(r: RendererView, name: Seq<char>)
    requires
        !r.closed,
    ensures
        ({
            let after = render_step(r, Some(EventView::FileDone { name })).0;
            &&& after.done == capped_sum(r.done, 1)
            &&& !has_widget(after.widgets, name)
            &&& forall|other: Seq<char>|
                other != name ==> (#[trigger] has_widget(after.widgets, other) <==> has_widget(
                    r.widgets,
                    other,
                ))
        }),
{
    lemma_without_widget(r.widgets, name);
}

/// A started file has exactly one widget afterwards, the new one, also
/// where one was shown under its name before.
pub proof fn law_file_started_replaces(r: RendererView, name: Seq<char>, size: Option<u64>)
    requires
        !r.closed,
    ensures
        ({
            let after = render_step(r, Some(EventView::FileStarted { name, size })).0;
            &&& after.widgets.len() > 0
            &&& after.widgets.last() == (WidgetView { name, size, position: 0 })
            &&& !has_widget(after.widgets.drop_last(), name)
            &&& after.done == r.done
        }),
{
    lemma_without_widget(r.widgets, name);
    let kept = without_widget(r.widgets, name);
    assert(kept.push(WidgetView { name, size, position: 0 }).drop_last() == kept);
}

/// The bookkeeping of the progress display: a header that counts the files
/// that are done, and a widget for each file in flight.
#[derive(Debug, PartialEq, Eq)]
pub struct Renderer {
    action: String,
    total: u64,
    done: u64,
    widgets: Vec<Widget>,
    closed: bool,
}

impl View for Renderer {
    type V = RendererView;

    closed spec fn view(&self) -> RendererView {
        RendererView {
            action: self.action@,
            total: self.total,
            done: self.done,
            widgets: widget_views(self.widgets@),
            closed: self.closed,
        }
    }
}

/// The sum of two counts, held at the largest count.
fn add_capped(a: u64, b: u64) -> (c: u64)
    ensures
        c == capped_sum(a, b),
{
    if a > u64::MAX - b {
        u64::MAX
    } else {
        a + b
    }
}

/// The widgets that are not shown under `name`, and whether one was.
fn remove_widget(ws: &Vec<Widget>, name: &String) -> (r: (Vec<Widget>, bool))
    ensures
        widget_views(r.0@) == without_widget(widget_views(ws@), name@),
        r.1 == has_widget(widget_views(ws@), name@),
{
    let ghost wv = widget_views(ws@);
    let mut kept: Vec<Widget> = Vec::new();
    let mut found = false;
    let mut i: usize = 0;
    assert(wv.take(0) == Seq::<WidgetView>::empty());
    while i < ws.len()
        invariant
            i <= ws.len(),
            wv == widget_views(ws@),
            widget_views(kept@) == without_widget(wv.take(i as int), name@),
            found == has_widget(wv.take(i as int), name@),
        decreases ws.len() - i,
    {
        let ghost before = widget_views(kept@);
        assert(wv[i as int] == ws@[i as int]@);
        assert(wv.take(i + 1).drop_last() == wv.take(i as int));
        assert(wv.take(i + 1).last() == wv[i as int]);
        proof {
            let a = wv.take(i as int);
            let b = wv.take(i + 1);
            if has_widget(a, name@) {
                let k = choose|k: int| 0 <= k < a.len() && #[trigger] a[k].name == name@;
                assert(b[k].name == name@);
            }
            if has_widget(b, name@) && wv[i as int].name != name@ {
                let k = choose|k: int| 0 <= k < b.len() && #[trigger] b[k].name == name@;
                assert(a[k].name == name@);
            }
            if wv[i as int].name == name@ {
                assert(b[i as int].name == name@);
            }
        }
        if ws[i].name == *name {
            found = true;
        } else {
            kept.push(ws[i].clone());
            assert(widget_views(kept@) =~= before.push(wv[i as int]));
        }
        i = i + 1;
    }
    assert(wv.take(i as int) == wv);
    (kept, found)
}

/// Whether a widget is shown under `name`.
fn widget_shown(ws: &Vec<Widget>, name: &String) -> (shown: bool)
    ensures
        shown == has_widget(widget_views(ws@), name@),
{
    let ghost wv = widget_views(ws@);
    let mut i: usize = 0;
    while i < ws.len()
        invariant
            i <= ws.len(),
            wv == widget_views(ws@),
            forall|k: int| 0 <= k < i ==> #[trigger] wv[k].name != name@,
        decreases ws.len() - i,
    {
        assert(wv[i as int] == ws@[i as int]@);
        if ws[i].name == *name {
            assert(wv[i as int].name == name@);
            return true;
        }
        i = i + 1;
    }
    false
}

/// The widgets with those shown under `name` advanced by `bytes`.
fn advance_widgets(ws: &Vec<Widget>, name: &String, bytes: u64) -> (r: Vec<Widget>)
    ensures
        widget_views(r@) == advanced_widgets(widget_views(ws@), name@, bytes),
{
    let ghost wv = widget_views(ws@);
    let mut out: Vec<Widget> = Vec::new();
    let mut i: usize = 0;
    while i < ws.len()
        invariant
            i <= ws.len(),
            wv == widget_views(ws@),
            out.len() == i,
            widget_views(out@) == advanced_widgets(wv.take(i as int), name@, bytes),
        decreases ws.len() - i,
    {
        let ghost before = widget_views(out@);
        assert(wv[i as int] == ws@[i as int]@);
        let w = if ws[i].name == *name {
            Widget {
                name: ws[i].name.clone(),
                size: ws[i].size,
                position: add_capped(ws[i].position, bytes),
            }
        } else {
            ws[i].clone()
        };
        let ghost v = w@;
        out.push(w);
        assert(widget_views(out@) =~= before.push(v));
        assert(widget_views(out@) =~= advanced_widgets(wv.take(i + 1), name@, bytes)) by {
            assert forall|k: int| 0 <= k < i + 1 implies widget_views(out@)[k]
                == advanced_widgets(wv.take(i + 1), name@, bytes)[k] by {
                if k < i {
                    assert(before[k] == advanced_widgets(wv.take(i as int), name@, bytes)[k]);
                    assert(wv.take(i as int)[k] == wv.take(i + 1)[k]);
                }
            }
        }
        i = i + 1;
    }
    assert(wv.take(i as int) == wv);
    out
}

impl Renderer {
    /// A display for `total` files under the label `action`, with no file
    /// in flight.
    pub fn new(action: &str, total: u64) -> (r: Renderer)
        ensures
            r@ == (RendererView {
                action: action@,
                total,
                done: 0,
                widgets: Seq::empty(),
                closed: false,
            }),
    {
        let r = Renderer {
            action: action.to_owned(),
            total,
            done: 0,
            widgets: Vec::new(),
            closed: false,
        };
        assert(widget_views(r.widgets@) =~= Seq::<WidgetView>::empty());
        r
    }

    /// The number of files that are done.
    pub fn done(&self) -> (n: u64)
        ensures
            n == self@.done,
    {
        self.done
    }

    /// The number of files that the header counts up to.
    pub fn total(&self) -> (n: u64)
        ensures
            n == self@.total,
    {
        self.total
    }

    /// The number of files in flight.
    pub fn in_flight(&self) -> (n: usize)
        ensures
            n == self@.widgets.len(),
    {
        self.widgets.len()
    }

    /// Whether the display was closed.
    pub fn is_closed(&self) -> (b: bool)
        ensures
            b == self@.closed,
    {
        self.closed
    }
}

/// The value of an event that may be absent.
pub open spec fn event_view(event: Option<&Event>) -> Option<EventView> {
    match event {
        Some(e) => Some(e@),
        None => None,
    }
}

/// Takes the next event off the channel, `None` at its end, and says what
/// the display driver does.
pub fn event_output(renderer: &mut Renderer, event: Option<&Event>) -> (command: RenderCommand)
    ensures
        (final(renderer)@, command@) == render_step(old(renderer)@, event_view(event)),
{
    if renderer.closed {
        return RenderCommand::Nothing;
    }
    match event {
        None | Some(Event::CloseStream) => {
            let mut message = renderer.action.clone();
            message.append(": Done.");
            renderer.widgets = Vec::new();
            renderer.closed = true;
            assert(widget_views(renderer.widgets@) =~= Seq::<WidgetView>::empty());
            RenderCommand::Close { message }
        },
        Some(Event::FileStarted { name, size }) => {
            let (mut kept, replaces) = remove_widget(&renderer.widgets, name);
            let ghost before = widget_views(kept@);
            kept.push(Widget { name: name.clone(), size: *size, position: 0 });
            assert(widget_views(kept@) =~= before.push(
                WidgetView { name: name@, size: *size, position: 0 },
            ));
            renderer.widgets = kept;
            RenderCommand::Show { name: name.clone(), size: *size, replaces }
        },
        Some(Event::FileProgress { name, bytes }) => {
            let shown = widget_shown(&renderer.widgets, name);
            renderer.widgets = advance_widgets(&renderer.widgets, name, *bytes);
            if shown {
                RenderCommand::Advance { name: name.clone(), bytes: *bytes }
            } else {
                RenderCommand::Nothing
            }
        },
        Some(Event::FileDone { name }) => {
            let (kept, had_widget) = remove_widget(&renderer.widgets, name);
            renderer.widgets = kept;
            renderer.done = add_capped(renderer.done, 1);
            RenderCommand::Finish { name: name.clone(), had_widget }
        },
    }
}

} // verus!
