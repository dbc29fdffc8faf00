use markdown_ui::render::{
    advance, check_chrome_available, engine_missing_message, launch_settings, pdf_available,
    print_settings,
    LaunchSettings, PrintSettings, RenderAction, RenderEvent, RenderOutcome, RenderState,
    SETTLE_MILLIS,
};
use std::path::PathBuf;

const MISSING: &str =
    "Chrome, Chromium, or Edge is required for PDF export. Please install a Chromium-based browser.";

fn failed(details: &str) -> RenderEvent {
    RenderEvent::Failed(details.to_string())
}

#[test]
fn rendering_goes_through_every_step() {
    let (state, action) = advance(RenderState::Idle, &RenderEvent::Start);
    assert_eq!(state, RenderState::BrowserLaunching);
    assert_eq!(action, RenderAction::Launch(launch_settings()));
    let (state, action) = advance(state, &RenderEvent::Done);
    assert_eq!((state, action), (RenderState::PageCreated, RenderAction::OpenPage));
    let (state, action) = advance(state, &RenderEvent::Done);
    assert_eq!((state, action), (RenderState::ContentLoaded, RenderAction::LoadContent));
    let (state, action) = advance(state, &RenderEvent::Done);
    assert_eq!((state, action), (RenderState::Settling, RenderAction::Settle(1000)));
    let (state, action) = advance(state, &RenderEvent::Done);
    assert_eq!((state, action), (RenderState::Printing, RenderAction::Print(print_settings())));
    let (state, action) = advance(state, &RenderEvent::Done);
    assert_eq!(
        (state, action),
        (RenderState::Closed(RenderOutcome::Success), RenderAction::Finish)
    );
}

#[test]
fn browser_is_started_without_a_window() {
    assert_eq!(
        launch_settings(),
        LaunchSettings {
            new_headless: true,
            window_width: 1200,
            window_height: 1600,
            disable_gpu: true,
            no_first_run: true,
            no_default_browser_check: true,
        }
    );
}

#[test]
fn page_is_printed_on_a4_with_half_an_inch_of_margin() {
    let settings = print_settings();
    assert_eq!(
        settings,
        PrintSettings {
            paper_width: 827,
            paper_height: 1169,
            margin_top: 50,
            margin_bottom: 50,
            margin_left: 50,
            margin_right: 50,
            print_background: true,
        }
    );
    assert_eq!(settings.paper_width as f64 / 100.0, 8.27);
    assert_eq!(settings.paper_height as f64 / 100.0, 11.69);
    assert_eq!(settings.margin_top as f64 / 100.0, 0.5);
}

#[test]
fn page_settles_for_one_second() {
    assert_eq!(SETTLE_MILLIS, 1000);
}

#[test]
fn missing_browser_is_reported_as_unavailable() {
    for state in [RenderState::Idle, RenderState::BrowserLaunching] {
        let (next, action) = advance(state, &RenderEvent::EngineMissing);
        assert_eq!(next, RenderState::Closed(RenderOutcome::EngineUnavailable));
        assert_eq!(action, RenderAction::Abort(MISSING.to_string()));
    }
    assert_eq!(check_chrome_available(None), Err(MISSING.to_string()));
    assert!(!pdf_available(&None));
    assert_eq!(engine_missing_message(), MISSING);
}

#[test]
fn found_browser_is_handed_on() {
    let path = PathBuf::from("/usr/bin/chromium");
    assert!(pdf_available(&Some(path.clone())));
    assert_eq!(check_chrome_available(Some(path.clone())), Ok(path));
}

#[test]
fn browser_that_goes_missing_later_is_a_failed_step() {
    let (next, action) = advance(RenderState::Printing, &RenderEvent::EngineMissing);
    assert_eq!(next, RenderState::Closed(RenderOutcome::Failure));
    assert_eq!(action, RenderAction::Abort(format!("Failed to generate PDF: {}", MISSING)));
}

#[test]
fn failed_step_is_reported_with_the_message_of_the_step() {
    let cases = [
        (RenderState::Idle, "Failed to build browser config: boom"),
        (RenderState::BrowserLaunching, "Failed to launch browser: boom"),
        (RenderState::PageCreated, "Failed to create page: boom"),
        (RenderState::ContentLoaded, "Failed to set HTML content: boom"),
        (RenderState::Settling, "Failed to wait for rendering: boom"),
        (RenderState::Printing, "Failed to generate PDF: boom"),
    ];
    for (state, message) in cases {
        let (next, action) = advance(state, &failed("boom"));
        assert_eq!(next, RenderState::Closed(RenderOutcome::Failure));
        assert_eq!(action, RenderAction::Abort(message.to_string()));
    }
}

#[test]
fn closed_rendering_stays_closed() {
    let outcomes =
        [RenderOutcome::Success, RenderOutcome::EngineUnavailable, RenderOutcome::Failure];
    let events = [RenderEvent::Start, RenderEvent::Done, RenderEvent::EngineMissing, failed("x")];
    for outcome in outcomes {
        for event in &events {
            assert_eq!(
                advance(RenderState::Closed(outcome), event),
                (RenderState::Closed(outcome), RenderAction::Nothing)
            );
        }
    }
}

#[test]
fn event_that_does_not_belong_to_the_state_changes_nothing() {
    assert_eq!(
        advance(RenderState::Idle, &RenderEvent::Done),
        (RenderState::Idle, RenderAction::Nothing)
    );
    for state in [
        RenderState::BrowserLaunching,
        RenderState::PageCreated,
        RenderState::ContentLoaded,
        RenderState::Settling,
        RenderState::Printing,
    ] {
        assert_eq!(advance(state, &RenderEvent::Start), (state, RenderAction::Nothing));
    }
}
