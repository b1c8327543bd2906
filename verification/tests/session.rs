use scriba_rs::session::{
    close_answered, confirm, initial_language, open_session, plan_for_model, recording_label,
    relabel_automatic, session_step, transcription_plan, CallbackRun, CloseAction, TranscriptionPlan,
    WindowEvent, dark_theme, window_on_top, should_post_transfer, transfer_label,
    advance_progress, after_record_start, append_transcript, can_open_recorder, clock_text,
    current_model_id, default_microphone, download_label, duration_text, finish_download,
    language_code, language_label, language_options, model_items, pick_initial_model,
    record_button, retranslate_notes, select_model, session_start, should_post_progress,
    show_download_progress, source_label, start_download, warning_text, warning_with_cause,
    AppState, ModelItem, ModelNotes, RecordAction,
};
use scriba_rs::config::SavedConfig;
use scriba_rs::ScribaConfig;

fn notes() -> ModelNotes {
    ModelNotes { lite: "fast".to_string(), medium: "balanced".to_string(), turbo: "accurate".to_string() }
}

fn items() -> Vec<ModelItem> {
    model_items("medium", &vec![true, false, true], &notes())
}

#[test]
fn model_rows_follow_catalogue() {
    let it = items();
    assert_eq!(it.len(), 3);
    assert_eq!(it[0].id, "lite");
    assert_eq!(it[0].note, "fast");
    assert_eq!(it[2].name, "Large Turbo");
    assert_eq!(it[2].note, "accurate");
    assert!(it[0].installed && !it[1].installed && it[2].installed);
    assert!(!it[0].selected && it[1].selected && !it[2].selected);
    assert!(it.iter().all(|m| !m.downloading && m.progress_label.is_empty()));
    assert_eq!((it[1].speed, it[1].quality), (3, 3));
}

#[test]
fn current_model_is_selected_row() {
    let mut it = items();
    assert_eq!(current_model_id(&it), "medium");
    select_model(&mut it, "turbo");
    assert_eq!(current_model_id(&it), "turbo");
    assert!(!it[1].selected);
    select_model(&mut it, "nothing");
    assert_eq!(current_model_id(&it), "lite");
    assert_eq!(current_model_id(&Vec::new()), "lite");
}

#[test]
fn download_rows() {
    let mut it = items();
    start_download(&mut it, "medium", "starting");
    assert!(it[1].downloading);
    assert_eq!(it[1].progress_label, "starting");
    assert!(!it[0].downloading);
    show_download_progress(&mut it, "medium", "1,0 MB / 515,0 MB");
    assert_eq!(it[1].progress_label, "1,0 MB / 515,0 MB");
    finish_download(&mut it, "medium", false);
    assert!(!it[1].downloading && !it[1].installed);
    assert_eq!(it[1].progress_label, "");
    assert_eq!(current_model_id(&it), "medium");
    select_model(&mut it, "lite");
    start_download(&mut it, "medium", "starting");
    finish_download(&mut it, "medium", true);
    assert!(it[1].installed && !it[1].downloading);
    assert_eq!(current_model_id(&it), "medium");
}

#[test]
fn notes_in_new_language() {
    let mut it = items();
    let de = ModelNotes { lite: "schnell".to_string(), medium: "ausgewogen".to_string(), turbo: "genau".to_string() };
    assert!(retranslate_notes(&mut it, &de));
    assert_eq!(it[0].note, "schnell");
    assert_eq!(it[2].note, "genau");
    it[1].id = "custom".to_string();
    assert!(!retranslate_notes(&mut it, &notes()));
    assert_eq!(it[0].note, "fast");
    assert_eq!(it[1].note, "ausgewogen");
    assert_eq!(it[2].note, "genau");
}

#[test]
fn download_progress_throttle() {
    assert!(!should_post_progress(1_000_000, 0, Some(10_000_000)));
    assert!(should_post_progress(4_000_000, 0, Some(10_000_000)));
    assert!(should_post_progress(10_000_000, 9_999_000, Some(10_000_000)));
    assert!(!should_post_progress(3_999_999, 0, None));
    assert!(should_post_progress(5, 10, Some(5)));
    assert!(!should_post_progress(5, 10, None));
}

#[test]
fn download_progress_label() {
    assert_eq!(download_label(1_048_576, Some(540_016_640)), "1,0 MB / 515,0 MB");
    assert_eq!(download_label(2048, None), "2 KB");
}

#[test]
fn progress_only_grows() {
    let mut highest = 0;
    assert!(advance_progress(&mut highest, 5));
    assert!(!advance_progress(&mut highest, 5));
    assert!(!advance_progress(&mut highest, 3));
    assert!(advance_progress(&mut highest, 40));
    assert_eq!(highest, 40);
}

#[test]
fn initial_model_choice() {
    assert_eq!(pick_initial_model("turbo", true, "lite", true, &vec![true, true, true]), "turbo");
    assert_eq!(pick_initial_model("turbo", false, "lite", true, &vec![true, true, false]), "lite");
    assert_eq!(pick_initial_model("turbo", false, "lite", false, &vec![false, true, false]), "medium");
    assert_eq!(pick_initial_model("turbo", false, "lite", false, &vec![false, false, false]), "turbo");
}

#[test]
fn session_start_from_config() {
    let mut cfg = ScribaConfig::default();
    cfg.data_dir = Some(std::path::PathBuf::from("/nonexistent/scriba"));
    cfg.model = "turbo".to_string();
    cfg.ui_language = Some("en".to_string());
    let saved = SavedConfig { model: "medium".to_string(), diarize: true, ui_language: None };
    let s = session_start(&cfg, &saved);
    assert_eq!(s.model, "turbo");
    assert!(s.diarize);
    assert_eq!(s.ui_language.as_deref(), Some("en"));
    let saved = SavedConfig { model: "medium".to_string(), diarize: false, ui_language: Some("it".to_string()) };
    let s = session_start(&cfg, &saved);
    assert!(!s.diarize);
    assert_eq!(s.ui_language.as_deref(), Some("it"));
}

#[test]
fn languages_offered() {
    let o = language_options("Automatico");
    let labels: Vec<&str> = o.iter().map(|l| l.label.as_str()).collect();
    let codes: Vec<&str> = o.iter().map(|l| l.code.as_str()).collect();
    assert_eq!(labels, vec!["Automatico", "Italiano", "English", "Espa\u{f1}ol", "Fran\u{e7}ais", "Deutsch", "Portugu\u{ea}s"]);
    assert_eq!(codes, vec!["auto", "it", "en", "es", "fr", "de", "pt"]);
    assert_eq!(language_label(&o, "fr", "Automatico"), "Fran\u{e7}ais");
    assert_eq!(language_label(&o, "ja", "Automatico"), "Automatico");
    assert_eq!(language_code(&o, "Deutsch").as_deref(), Some("de"));
    assert_eq!(language_code(&o, "Klingon"), None);
    let shown = language_label(&o, "pt", "Automatico");
    assert_eq!(language_code(&o, &shown).as_deref(), Some("pt"));
    let shown = language_label(&o, "xx", "Automatico");
    assert_eq!(language_code(&o, &shown).as_deref(), Some("auto"));
}

#[test]
fn microphone_at_start() {
    let mics = vec!["USB".to_string(), "Built-in".to_string()];
    assert_eq!(default_microphone(Some("Built-in".to_string()), &mics), "Built-in");
    assert_eq!(default_microphone(None, &mics), "USB");
    assert_eq!(default_microphone(None, &Vec::new()), "\u{2014}");
}

#[test]
fn time_labels() {
    assert_eq!(clock_text(0), "00:00");
    assert_eq!(clock_text(65), "01:05");
    assert_eq!(clock_text(6000), "100:00");
    assert_eq!(duration_text(3725), "01:02:05");
    assert_eq!(duration_text(360_000), "100:00:00");
    assert_eq!(source_label("meeting.wav", 59), "meeting.wav (00:00:59)");
}

#[test]
fn warnings() {
    assert_eq!(warning_text("no model"), "\u{26a0}\u{fe0e} no model");
    assert_eq!(warning_with_cause("Download failed", "timeout"), "\u{26a0}\u{fe0e} Download failed: timeout");
}

#[test]
fn transcripts_joined() {
    let mut all = String::new();
    append_transcript(&mut all, "first");
    assert_eq!(all, "first");
    append_transcript(&mut all, "second");
    assert_eq!(all, "first\n\nsecond");
}

#[test]
fn record_button_states() {
    assert_eq!(record_button(AppState::Idle, false), RecordAction::StartRecording);
    assert_eq!(record_button(AppState::Result, true), RecordAction::StartRecording);
    assert_eq!(record_button(AppState::Recording, true), RecordAction::StopAndTranscribe);
    assert_eq!(record_button(AppState::Recording, false), RecordAction::Reset);
    assert_eq!(after_record_start(true), AppState::Recording);
    assert_eq!(after_record_start(false), AppState::Result);
    assert!(can_open_recorder(AppState::Idle));
    assert!(can_open_recorder(AppState::Result));
    assert!(!can_open_recorder(AppState::Transcribing));
    assert!(!can_open_recorder(AppState::Recording));
}

#[test]
fn recorder_device_labels() {
    assert!(!should_post_transfer(100, 0, 10_000));
    assert!(should_post_transfer(600, 100, 10_000));
    assert!(should_post_transfer(10_000, 9_900, 10_000));
    assert!(!should_post_transfer(50, 100, 10_000));
    assert_eq!(transfer_label(0, 3, 2048, 1_048_576), "Download 1/3 \u{2014} 2 KB / 1,0 MB");
    assert_eq!(recording_label("rec_01.opus", 1, 2), "rec_01.opus (2/2)");
}

#[test]
fn automatic_detection_relabelled() {
    let mut o = language_options("Auto");
    relabel_automatic(&mut o, "Automatisch");
    assert_eq!(o[0].label, "Automatisch");
    assert_eq!(o[0].code, "auto");
    assert_eq!(o[1].label, "Italiano");
    assert_eq!(language_code(&o, "Automatisch").as_deref(), Some("auto"));
}

#[test]
fn language_at_start() {
    let o = language_options("Auto");
    let c = initial_language(&o, "de", "Auto");
    assert_eq!((c.label.as_str(), c.code.as_str()), ("Deutsch", "de"));
    let c = initial_language(&o, "auto", "Auto");
    assert_eq!((c.label.as_str(), c.code.as_str()), ("Auto", "auto"));
    let c = initial_language(&o, "zz", "Auto");
    assert_eq!((c.label.as_str(), c.code.as_str()), ("Auto", "auto"));
}

#[test]
fn progress_run_rises() {
    let mut highest = 0;
    let mut passed = Vec::new();
    for p in [0, 3, 3, 10, 7, 10, 55, 100, 100, 99] {
        if advance_progress(&mut highest, p) {
            passed.push(p);
        }
    }
    assert_eq!(passed, vec![3, 10, 55, 100]);
}

#[test]
fn models_downloaded_on_first_use() {
    assert_eq!(transcription_plan(false, false), TranscriptionPlan::UnknownModel);
    assert_eq!(transcription_plan(false, true), TranscriptionPlan::UnknownModel);
    assert_eq!(transcription_plan(true, false), TranscriptionPlan::DownloadThenTranscribe);
    assert_eq!(transcription_plan(true, true), TranscriptionPlan::Transcribe);
    let dir = std::path::Path::new("/nonexistent/scriba");
    assert_eq!(plan_for_model("lite", Some(dir)), TranscriptionPlan::DownloadThenTranscribe);
    assert_eq!(plan_for_model("huge", Some(dir)), TranscriptionPlan::UnknownModel);
}

#[test]
fn confirm_and_close_callbacks() {
    assert_eq!(close_answered(true), CloseAction::CancelAndHide);
    assert_eq!(close_answered(false), CloseAction::StayOpen);
    assert!(confirm(true, true));
    assert!(!confirm(false, true));
    assert!(!confirm(true, false));

    let mut s = open_session(true);
    assert_eq!(session_step(&mut s, WindowEvent::CloseAnswered(false)), CallbackRun::Nothing);
    assert_eq!(session_step(&mut s, WindowEvent::ResultReady), CallbackRun::Nothing);
    assert_eq!(session_step(&mut s, WindowEvent::Confirm), CallbackRun::Result);
    assert_eq!(session_step(&mut s, WindowEvent::CloseAnswered(true)), CallbackRun::Nothing);
    assert_eq!(session_step(&mut s, WindowEvent::Confirm), CallbackRun::Nothing);

    let mut s = open_session(true);
    assert_eq!(session_step(&mut s, WindowEvent::Confirm), CallbackRun::Nothing);
    assert!(!s.open);

    let mut s = open_session(true);
    assert_eq!(session_step(&mut s, WindowEvent::ResultReady), CallbackRun::Nothing);
    assert_eq!(session_step(&mut s, WindowEvent::CloseAnswered(true)), CallbackRun::Cancel);
    assert_eq!(session_step(&mut s, WindowEvent::Confirm), CallbackRun::Nothing);

    let mut s = open_session(false);
    assert_eq!(session_step(&mut s, WindowEvent::CloseAnswered(true)), CallbackRun::Nothing);
}

#[test]
fn confirm_only_the_result_shown() {
    let mut s = open_session(true);
    assert_eq!(session_step(&mut s, WindowEvent::ResultReady), CallbackRun::Nothing);
    assert_eq!(session_step(&mut s, WindowEvent::TranscriptionStarted), CallbackRun::Nothing);
    assert_eq!(session_step(&mut s, WindowEvent::TranscriptionFailed), CallbackRun::Nothing);
    assert_eq!(session_step(&mut s, WindowEvent::Confirm), CallbackRun::Nothing);

    let mut s = open_session(false);
    assert_eq!(session_step(&mut s, WindowEvent::ResultReady), CallbackRun::Nothing);
    assert_eq!(session_step(&mut s, WindowEvent::TranscriptionFailed), CallbackRun::Nothing);
    assert_eq!(session_step(&mut s, WindowEvent::ResultReady), CallbackRun::Nothing);
    assert_eq!(session_step(&mut s, WindowEvent::Confirm), CallbackRun::Result);
}

#[test]
fn theme_and_on_top() {
    assert!(dark_theme(Some(true), false));
    assert!(!dark_theme(Some(false), true));
    assert!(dark_theme(None, true));
    assert!(!dark_theme(None, false));
    assert!(window_on_top(true, false));
    assert!(!window_on_top(true, true));
    assert!(!window_on_top(false, false));
}
