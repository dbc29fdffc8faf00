//! The steps of printing an HTML document to PDF in a headless browser.
//!
//! The browser is driven from outside this library. Here stands what is decided
//! between its steps: which step comes next, with which settings, when the
//! browser is torn down, and what a failure is reported as.

use crate::text::{append_str, owned, string_of};
use vstd::prelude::*;

verus! {

/// A path in the file system. Nothing in this library looks inside it.
#[verifier::external_type_specification]
#[verifier::external_body]
pub struct ExPathBuf(std::path::PathBuf);

/// The message for a machine without a browser that can print.
pub const ENGINE_MISSING: &'static str =
    "Chrome, Chromium, or Edge is required for PDF export. Please install a Chromium-based browser.";

/// What the message starts with when the browser's settings were refused.
pub const CONFIG_FAILURE: &'static str = "Failed to build browser config: ";

/// What the message starts with when the browser did not start.
pub const LAUNCH_FAILURE: &'static str = "Failed to launch browser: ";

/// What the message starts with when no page could be opened.
pub const PAGE_FAILURE: &'static str = "Failed to create page: ";

/// What the message starts with when the page did not take the document.
pub const CONTENT_FAILURE: &'static str = "Failed to set HTML content: ";

/// What the message starts with when the wait for the diagrams failed.
pub const SETTLE_FAILURE: &'static str = "Failed to wait for rendering: ";

/// What the message starts with when the page could not be printed.
pub const PRINT_FAILURE: &'static str = "Failed to generate PDF: ";

/// How long the page is left alone before it is printed, in milliseconds, so
/// that the script in the page can draw the diagrams.
pub const SETTLE_MILLIS: u64 = 1000;

/// How the browser is started.
#[derive(Debug, Clone, Copy, PartialEq, Eq, Structural)]
pub struct LaunchSettings {
    /// Whether the browser runs in the headless mode that shows no window.
    pub new_headless: bool,
    /// The width of the window, in pixels.
    pub window_width: u32,
    /// The height of the window, in pixels.
    pub window_height: u32,
    /// Whether the graphics processor is left unused.
    pub disable_gpu: bool,
    /// Whether what a browser shows on its first run is left out.
    pub no_first_run: bool,
    /// Whether the question for the default browser is left out.
    pub no_default_browser_check: bool,
}

/// How the page is printed. Lengths are in hundredths of an inch.
#[derive(Debug, Clone, Copy, PartialEq, Eq, Structural)]
pub struct PrintSettings {
    /// The width of the paper.
    pub paper_width: u32,
    /// The height of the paper.
    pub paper_height: u32,
    /// The margin at the top.
    pub margin_top: u32,
    /// The margin at the bottom.
    pub margin_bottom: u32,
    /// The margin at the left.
    pub margin_left: u32,
    /// The margin at the right.
    pub margin_right: u32,
    /// Whether backgrounds are printed.
    pub print_background: bool,
}

/// The settings every browser is started with: no window, 1200 by 1600
/// pixels, no graphics processor, no first-run questions.
pub open spec fn launch_settings_spec() -> LaunchSettings {
    LaunchSettings {
        new_headless: true,
        window_width: 1200,
        window_height: 1600,
        disable_gpu: true,
        no_first_run: true,
        no_default_browser_check: true,
    }
}

/// The settings every page is printed with: A4 paper, 8.27 by 11.69 inches,
/// half an inch of margin on every side, backgrounds printed.
pub open spec fn print_settings_spec() -> PrintSettings {
    PrintSettings {
        paper_width: 827,
        paper_height: 1169,
        margin_top: 50,
        margin_bottom: 50,
        margin_left: 50,
        margin_right: 50,
        print_background: true,
    }
}

/// The settings every browser is started with.
pub fn launch_settings() -> (settings: LaunchSettings)
    ensures
        settings == launch_settings_spec(),
{
    LaunchSettings {
        new_headless: true,
        window_width: 1200,
        window_height: 1600,
        disable_gpu: true,
        no_first_run: true,
        no_default_browser_check: true,
    }
}

/// The settings every page is printed with.
pub fn print_settings() -> (settings: PrintSettings)
    ensures
        settings == print_settings_spec(),
{
    PrintSettings {
        paper_width: 827,
        paper_height: 1169,
        margin_top: 50,
        margin_bottom: 50,
        margin_left: 50,
        margin_right: 50,
        print_background: true,
    }
}

/// How a rendering ended.
#[derive(Debug, Clone, Copy, PartialEq, Eq, Structural)]
pub enum RenderOutcome {
    /// The page was printed.
    Success,
    /// No browser that can print was found.
    EngineUnavailable,
    /// A step failed after a browser was found.
    Failure,
}

/// Where a rendering stands. But for `Idle` and `Closed`, a state names the
/// step that is under way.
#[derive(Debug, Clone, Copy, PartialEq, Eq, Structural)]
pub enum RenderState {
    /// Nothing was started.
    Idle,
    /// The browser is being started.
    BrowserLaunching,
    /// A blank page is being opened.
    PageCreated,
    /// The document is being put into the page.
    ContentLoaded,
    /// The page is left alone, so that the diagrams are drawn.
    Settling,
    /// The page is being printed.
    Printing,
    /// The rendering is over and the browser is torn down.
    Closed(RenderOutcome),
}

/// What happened outside since the last step.
#[derive(Debug, PartialEq, Eq)]
pub enum RenderEvent {
    /// A rendering is asked for.
    Start,
    /// The step under way succeeded.
    Done,
    /// No browser that can print was found.
    EngineMissing,
    /// The step under way failed; the text says how.
    Failed(String),
}

/// What is to be done outside next.
#[derive(Debug, PartialEq, Eq)]
pub enum RenderAction {
    /// Find a browser and start it with these settings, and start the task
    /// that reads its events.
    Launch(LaunchSettings),
    /// Open a blank page.
    OpenPage,
    /// Put the document into the page as its content.
    LoadContent,
    /// Wait for so many milliseconds.
    Settle(u64),
    /// Print the page with these settings.
    Print(PrintSettings),
    /// Tear down the browser and the task that reads its events, and hand out
    /// the PDF.
    Finish,
    /// Tear down the browser and the task that reads its events, and report
    /// this message.
    Abort(String),
    /// Nothing: the event does not belong to the state.
    Nothing,
}

/// A `RenderEvent`, with a text in place of the string.
pub enum EventView {
    Start,
    Done,
    EngineMissing,
    Failed(Seq<char>),
}

/// A `RenderAction`, with a text in place of the string.
pub enum ActionView {
    Launch(LaunchSettings),
    OpenPage,
    LoadContent,
    Settle(u64),
    Print(PrintSettings),
    Finish,
    Abort(Seq<char>),
    Nothing,
}

impl View for RenderEvent {
    type V = EventView;

    open spec fn view(&self) -> EventView {
        match *self {
            RenderEvent::Start => EventView::Start,
            RenderEvent::Done => EventView::Done,
            RenderEvent::EngineMissing => EventView::EngineMissing,
            RenderEvent::Failed(details) => EventView::Failed(details@),
        }
    }
}

impl View for RenderAction {
    type V = ActionView;

    open spec fn view(&self) -> ActionView {
        match *self {
            RenderAction::Launch(settings) => ActionView::Launch(settings),
            RenderAction::OpenPage => ActionView::OpenPage,
            RenderAction::LoadContent => ActionView::LoadContent,
            RenderAction::Settle(millis) => ActionView::Settle(millis),
            RenderAction::Print(settings) => ActionView::Print(settings),
            RenderAction::Finish => ActionView::Finish,
            RenderAction::Abort(message) => ActionView::Abort(message@),
            RenderAction::Nothing => ActionView::Nothing,
        }
    }
}

/// Whether the rendering is over in `state`.
pub open spec fn is_closed(state: RenderState) -> bool {
    state is Closed
}

/// How far `state` is along the way from `Idle` to `Closed`.
pub open spec fn progress(state: RenderState) -> nat {
    match state {
        RenderState::Idle => 0,
        RenderState::BrowserLaunching => 1,
        RenderState::PageCreated => 2,
        RenderState::ContentLoaded => 3,
        RenderState::Settling => 4,
        RenderState::Printing => 5,
        RenderState::Closed(_) => 6,
    }
}

/// What the message for a failure in `state` starts with.
pub open spec fn failure_prefix(state: RenderState) -> Seq<char> {
    match state {
        RenderState::Idle => CONFIG_FAILURE@,
        RenderState::BrowserLaunching => LAUNCH_FAILURE@,
        RenderState::PageCreated => PAGE_FAILURE@,
        RenderState::ContentLoaded => CONTENT_FAILURE@,
        RenderState::Settling => SETTLE_FAILURE@,
        RenderState::Printing => PRINT_FAILURE@,
        RenderState::Closed(_) => Seq::empty(),
    }
}

/// The state after `state` when the step under way succeeded, and what is to
/// be done then.
pub open spec fn after_success(state: RenderState) -> (RenderState, ActionView) {
    match state {
        RenderState::BrowserLaunching => (RenderState::PageCreated, ActionView::OpenPage),
        RenderState::PageCreated => (RenderState::ContentLoaded, ActionView::LoadContent),
        RenderState::ContentLoaded => (RenderState::Settling, ActionView::Settle(SETTLE_MILLIS)),
        RenderState::Settling => (
            RenderState::Printing,
            ActionView::Print(print_settings_spec()),
        ),
        RenderState::Printing => (RenderState::Closed(RenderOutcome::Success), ActionView::Finish),
        _ => (state, ActionView::Nothing),
    }
}

/// The state after `state` and `event`, and what is to be done then.
///
/// A closed rendering stays as it is. Before that, a failure closes the
/// rendering, whatever the state: a failed step is reported with the message
/// of the step; a missing browser is reported as such as long as none was
/// started, and as a failed step after that. `Start` leads from `Idle` to the
/// launch, `Done` from each step to the next and from printing to the end. An
/// event that does not belong to the state changes nothing.
pub open spec fn step(state: RenderState, event: EventView) -> (RenderState, ActionView) {
    if is_closed(state) {
        (state, ActionView::Nothing)
    } else {
        match event {
            EventView::Start => if state == RenderState::Idle {
                (RenderState::BrowserLaunching, ActionView::Launch(launch_settings_spec()))
            } else {
                (state, ActionView::Nothing)
            },
            EventView::Done => after_success(state),
            EventView::EngineMissing => if progress(state) <= 1 {
                (
                    RenderState::Closed(RenderOutcome::EngineUnavailable),
                    ActionView::Abort(ENGINE_MISSING@),
                )
            } else {
                (
                    RenderState::Closed(RenderOutcome::Failure),
                    ActionView::Abort(failure_prefix(state) + ENGINE_MISSING@),
                )
            },
            EventView::Failed(details) => (
                RenderState::Closed(RenderOutcome::Failure),
                ActionView::Abort(failure_prefix(state) + details),
            ),
        }
    }
}

/// The state after `state` and the events `events`, in order.
pub open spec fn run(state: RenderState, events: Seq<EventView>) -> RenderState
    decreases events.len(),
{
    if events.len() == 0 {
        state
    } else {
        run(step(state, events[0]).0, events.drop_first())
    }
}

/// The message for a failure in `state` with the details `details`.
fn failure_in(state: RenderState, details: &str) -> (message: String)
    ensures
        message@ == failure_prefix(state) + details@,
{
    let mut message: Vec<char> = Vec::new();
    match state {
        RenderState::Idle => append_str(&mut message, CONFIG_FAILURE),
        RenderState::BrowserLaunching => append_str(&mut message, LAUNCH_FAILURE),
        RenderState::PageCreated => append_str(&mut message, PAGE_FAILURE),
        RenderState::ContentLoaded => append_str(&mut message, CONTENT_FAILURE),
        RenderState::Settling => append_str(&mut message, SETTLE_FAILURE),
        RenderState::Printing => append_str(&mut message, PRINT_FAILURE),
        RenderState::Closed(_) => {},
    }
    append_str(&mut message, details);
    proof {
        assert(message@ == failure_prefix(state) + details@);
    }
    string_of(message.as_slice())
}

/// The message for a machine without a browser that can print.
pub fn engine_missing_message() -> (message: String)
    ensures
        message@ == ENGINE_MISSING@,
{
    owned(ENGINE_MISSING)
}

/// The state after `state` and `event`, and what is to be done next.
pub fn advance(state: RenderState, event: &RenderEvent) -> (r: (RenderState, RenderAction))
    ensures
        (r.0, r.1@) == step(state, event@),
{
    match state {
        RenderState::Closed(_) => (state, RenderAction::Nothing),
        _ => match event {
            RenderEvent::Start => match state {
                RenderState::Idle => (
                    RenderState::BrowserLaunching,
                    RenderAction::Launch(launch_settings()),
                ),
                _ => (state, RenderAction::Nothing),
            },
            RenderEvent::Done => match state {
                RenderState::BrowserLaunching => (RenderState::PageCreated, RenderAction::OpenPage),
                RenderState::PageCreated => (RenderState::ContentLoaded, RenderAction::LoadContent),
                RenderState::ContentLoaded => (
                    RenderState::Settling,
                    RenderAction::Settle(SETTLE_MILLIS),
                ),
                RenderState::Settling => (
                    RenderState::Printing,
                    RenderAction::Print(print_settings()),
                ),
                RenderState::Printing => (
                    RenderState::Closed(RenderOutcome::Success),
                    RenderAction::Finish,
                ),
                _ => (state, RenderAction::Nothing),
            },
            RenderEvent::EngineMissing => match state {
                RenderState::Idle | RenderState::BrowserLaunching => (
                    RenderState::Closed(RenderOutcome::EngineUnavailable),
                    RenderAction::Abort(engine_missing_message()),
                ),
                _ => (
                    RenderState::Closed(RenderOutcome::Failure),
                    RenderAction::Abort(failure_in(state, ENGINE_MISSING)),
                ),
            },
            RenderEvent::Failed(details) => (
                RenderState::Closed(RenderOutcome::Failure),
                RenderAction::Abort(failure_in(state, details.as_str())),
            ),
        },
    }
}

/// What the search for a browser gives: the path it found, or the message for
/// a machine without a browser that can print.
pub fn check_chrome_available(detected: Option<std::path::PathBuf>) -> (r: Result<
    std::path::PathBuf,
    String,
>)
    ensures
        match detected {
            Some(path) => r == Ok::<std::path::PathBuf, String>(path),
            None => r matches Err(message) && message@ == ENGINE_MISSING@,
        },
{
    match detected {
        Some(path) => Ok(path),
        None => Err(engine_missing_message()),
    }
}

/// Whether a PDF can be printed, given what the search for a browser found:
/// it can exactly if a browser was found.
pub fn pdf_available(detected: &Option<std::path::PathBuf>) -> (available: bool)
    ensures
        available == (*detected is Some),
{
    detected.is_some()
}

/// A closed rendering stays closed, with the outcome it has, and asks for
/// nothing more.
pub proof fn lemma_closed_is_final(outcome: RenderOutcome, event: EventView)
    ensures
        step(RenderState::Closed(outcome), event) == (
            RenderState::Closed(outcome),
            ActionView::Nothing,
        ),
{
}

/// Whatever happens after it, a closed rendering keeps its outcome.
pub proof fn lemma_closed_stays_closed(outcome: RenderOutcome, events: Seq<EventView>)
    ensures
        run(RenderState::Closed(outcome), events) == RenderState::Closed(outcome),
    decreases events.len(),
{
    if events.len() > 0 {
        lemma_closed_stays_closed(outcome, events.drop_first());
    }
}

/// The browser is torn down on every way out: the step that closes a
/// rendering asks for `Finish` if the page was printed and for `Abort`
/// otherwise, and no other step asks for either.
pub proof fn lemma_teardown_exactly_on_close(state: RenderState, event: EventView)
    requires
        !is_closed(state),
    ensures
        is_closed(step(state, event).0) <==> (step(state, event).1 is Finish || step(
            state,
            event,
        ).1 is Abort),
        step(state, event).1 is Finish <==> step(state, event).0 == RenderState::Closed(
            RenderOutcome::Success,
        ),
{
}

/// No step is left out: a step leaves the state as it is, leads to the next
/// state, or closes the rendering; and only from printing does it close with
/// success.
pub proof fn lemma_no_step_is_skipped(state: RenderState, event: EventView)
    ensures
        ({
            let next = step(state, event).0;
            ||| next == state
            ||| progress(next) == progress(state) + 1
            ||| (next is Closed && next != RenderState::Closed(RenderOutcome::Success))
        }),
        step(state, event).0 == RenderState::Closed(RenderOutcome::Success) ==> state
            == RenderState::Printing || state == RenderState::Closed(RenderOutcome::Success),
{
}

/// A missing browser is reported as such, with the message that tells the
/// user what to install, whenever it is found missing before a browser was
/// started.
pub proof fn lemma_missing_engine_is_reported(state: RenderState)
    requires
        state == RenderState::Idle || state == RenderState::BrowserLaunching,
    ensures
        step(state, EventView::EngineMissing) == (
            RenderState::Closed(RenderOutcome::EngineUnavailable),
            ActionView::Abort(ENGINE_MISSING@),
        ),
{
}

/// A rendering in which every step succeeds goes from `Idle` through all five
/// steps, in their order, and closes with success.
pub proof fn lemma_full_run_succeeds()
    ensures
        run(
            RenderState::Idle,
            seq![
                EventView::Start,
                EventView::Done,
                EventView::Done,
                EventView::Done,
                EventView::Done,
                EventView::Done,
            ],
        ) == RenderState::Closed(RenderOutcome::Success),
{
    let events = seq![
        EventView::Start,
        EventView::Done,
        EventView::Done,
        EventView::Done,
        EventView::Done,
        EventView::Done,
    ];
    let e1 = events.drop_first();
    let e2 = e1.drop_first();
    let e3 = e2.drop_first();
    let e4 = e3.drop_first();
    let e5 = e4.drop_first();
    let e6 = e5.drop_first();
    assert(e6.len() == 0);
    assert(run(RenderState::Closed(RenderOutcome::Success), e6) == RenderState::Closed(
        RenderOutcome::Success,
    ));
    assert(run(RenderState::Printing, e5) == RenderState::Closed(RenderOutcome::Success));
    assert(run(RenderState::Settling, e4) == RenderState::Closed(RenderOutcome::Success));
    assert(run(RenderState::ContentLoaded, e3) == RenderState::Closed(RenderOutcome::Success));
    assert(run(RenderState::PageCreated, e2) == RenderState::Closed(RenderOutcome::Success));
    assert(run(RenderState::BrowserLaunching, e1) == RenderState::Closed(RenderOutcome::Success));
}

} // verus!
