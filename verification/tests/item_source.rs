use batch_client::batch::{
    build_plan, dest_path_for, ensure_dir_plan, entry_to_payload, BatchError, DirAction,
    Payload, SourceEntry,
};
use batch_client::client::Topic;

fn entry(path: &[u8], dest_exists: bool) -> SourceEntry {
    SourceEntry { path: path.to_vec(), dest_exists }
}

#[test]
fn ensure_dir_plan_decides_all_three_cases() {
    let p = b"out".to_vec();
    assert_eq!(ensure_dir_plan(&p, true, true).unwrap(), DirAction::UseExisting);
    assert_eq!(ensure_dir_plan(&p, false, false).unwrap(), DirAction::Create);
    match ensure_dir_plan(&p, true, false).unwrap_err() {
        BatchError::NotADirectory(q) => assert_eq!(q, b"out".to_vec()),
        other => panic!("wrong error: {:?}", other),
    }
}

#[test]
fn dest_path_for_moves_the_stem_under_the_destination() {
    let d = dest_path_for(&b"in/speech.wav".to_vec(), &b"out".to_vec()).unwrap();
    assert_eq!(d.unwrap(), b"out/speech.txt".to_vec());
}

#[test]
fn dest_path_for_skips_other_extensions() {
    let d = dest_path_for(&b"in/notes.txt".to_vec(), &b"out".to_vec()).unwrap();
    assert!(d.is_none());
    // the match on the extension is case-sensitive
    let d = dest_path_for(&b"in/loud.WAV".to_vec(), &b"out".to_vec()).unwrap();
    assert!(d.is_none());
}

#[test]
fn dest_path_for_rejects_names_without_an_extension() {
    match dest_path_for(&b"in/noext".to_vec(), &b"out".to_vec()).unwrap_err() {
        BatchError::MalformedPath(p) => assert_eq!(p, b"in/noext".to_vec()),
        other => panic!("wrong error: {:?}", other),
    }
    // a leading dot alone does not make an extension
    assert!(dest_path_for(&b"in/.hidden".to_vec(), &b"out".to_vec()).is_err());
}

#[test]
fn entry_to_payload_emits_one_work_item() {
    let payload = entry_to_payload(
        &b"in/speech.wav".to_vec(),
        "en-US",
        Topic::Generic,
        &b"out".to_vec(),
        false,
    )
    .unwrap()
    .unwrap();
    match payload {
        Payload::File(item) => {
            assert_eq!(item.source, b"in/speech.wav".to_vec());
            assert_eq!(item.dest, b"out/speech.txt".to_vec());
            assert_eq!(item.language, "en-US");
            assert_eq!(item.topic, Topic::Generic);
        }
        Payload::Close => panic!("expected a work item"),
    }
}

#[test]
fn entry_to_payload_skips_existing_destinations() {
    let payload = entry_to_payload(
        &b"in/speech.wav".to_vec(),
        "en-US",
        Topic::Generic,
        &b"out".to_vec(),
        true,
    )
    .unwrap();
    assert!(payload.is_none());
}

#[test]
fn build_plan_appends_one_close_per_worker() {
    let entries = vec![entry(b"in/a.wav", false), entry(b"in/b.wav", false)];
    let plan = build_plan(&entries, "en-US", Topic::Telco, &b"out".to_vec(), 3).unwrap();
    assert_eq!(plan.len(), 5);
    assert!(matches!(&plan[0], Payload::File(item) if item.dest == b"out/a.txt".to_vec()));
    assert!(matches!(&plan[1], Payload::File(item) if item.dest == b"out/b.txt".to_vec()));
    assert!(matches!(plan[2], Payload::Close));
    assert!(matches!(plan[3], Payload::Close));
    assert!(matches!(plan[4], Payload::Close));
}

#[test]
fn an_empty_directory_plans_only_the_shutdown() {
    let entries: Vec<SourceEntry> = vec![];
    let plan = build_plan(&entries, "en-US", Topic::Generic, &b"out".to_vec(), 2).unwrap();
    assert_eq!(plan.len(), 2);
    assert!(plan.iter().all(|p| matches!(p, Payload::Close)));
}

#[test]
fn a_dotted_stem_keeps_its_dots() {
    let d = dest_path_for(&b"in/a.b.wav".to_vec(), &b"out".to_vec()).unwrap();
    assert_eq!(d.unwrap(), b"out/a.b.txt".to_vec());
}

#[test]
fn build_plan_aborts_on_the_first_malformed_name() {
    let entries = vec![
        entry(b"in/a.wav", false),
        entry(b"in/noext", false),
        entry(b"in/b.wav", false),
    ];
    match build_plan(&entries, "en-US", Topic::Generic, &b"out".to_vec(), 2).unwrap_err() {
        BatchError::MalformedPath(p) => assert_eq!(p, b"in/noext".to_vec()),
        other => panic!("wrong error: {:?}", other),
    }
}

// Idempotent resume: over a directory whose every audio file is already
// transcribed, a second run plans no work at all, so no recognition call is
// made.
#[test]
fn second_run_over_transcribed_directory_plans_no_work() {
    let entries = vec![
        entry(b"in/a.wav", true),
        entry(b"in/b.wav", true),
        entry(b"in/readme.txt", false),
    ];
    let plan = build_plan(&entries, "en-US", Topic::Generic, &b"out".to_vec(), 4).unwrap();
    assert_eq!(plan.len(), 4);
    assert!(plan.iter().all(|p| matches!(p, Payload::Close)));
}

// Skip-non-audio / skip-existing: of a text file, an untranscribed audio
// file and an already-transcribed audio file, exactly the untranscribed
// audio file becomes work.
#[test]
fn only_the_untranscribed_audio_file_becomes_work() {
    let entries = vec![
        entry(b"in/notes.txt", false),
        entry(b"in/fresh.wav", false),
        entry(b"in/done.wav", true),
    ];
    let plan = build_plan(&entries, "en-US", Topic::Generic, &b"out".to_vec(), 1).unwrap();
    assert_eq!(plan.len(), 2);
    assert!(
        matches!(&plan[0], Payload::File(item) if item.source == b"in/fresh.wav".to_vec()
            && item.dest == b"out/fresh.txt".to_vec())
    );
    assert!(matches!(plan[1], Payload::Close));
}
