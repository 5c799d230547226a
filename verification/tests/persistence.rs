use one_thousand_deaths::persistence::{
    append_frame, append_game, load_game, load_plan, new_with_header, BadVersionError, Header,
    LoadError, MAJOR_VERSION, MINOR_VERSION,
};
use one_thousand_deaths::message::Topic;

fn header() -> Header {
    Header::new("Mon, 1 Jan 2024 10:00:00 +0000".to_string(), "linux".to_string())
}

fn events(values: &[u32]) -> Vec<u8> {
    postcard::to_stdvec(values).unwrap()
}

fn read_events(chunks: &[Vec<u8>]) -> Vec<u32> {
    let mut all = Vec::new();
    for chunk in chunks {
        let mut values: Vec<u32> = postcard::from_bytes(chunk).unwrap();
        all.append(&mut values);
    }
    all
}

#[test]
fn test_save_load() {
    // Can we open a game we've saved and read what we wrote?
    let events1 = vec![1, 2];
    let events2 = vec![300, 40000];

    let mut file = new_with_header(&header());
    append_game(&mut file, &events(&events1));
    append_game(&mut file, &events(&events2));

    let (h, chunks) = load_game(&file).unwrap();
    let events = read_events(&chunks);
    assert_eq!(events.len(), 4);
    assert_eq!(events[0], events1[0]);
    assert_eq!(events[1], events1[1]);
    assert_eq!(events[2], events2[0]);
    assert_eq!(events[3], events2[1]);
    assert_eq!(h.major_version, MAJOR_VERSION);
    assert_eq!(h.minor_version, MINOR_VERSION);
    assert_eq!(h.date, "Mon, 1 Jan 2024 10:00:00 +0000");
    assert_eq!(h.os, "linux");
}

#[test]
fn test_append_old() {
    // Can we append onto a previously saved game?
    let events1 = vec![1, 2];
    let events2 = vec![3, 4];
    let events3 = vec![5];

    let mut file = new_with_header(&header());
    append_game(&mut file, &events(&events1));
    append_game(&mut file, &events(&events2));

    {
        let (_, chunks) = load_game(&file).unwrap();
        let events = read_events(&chunks);
        assert_eq!(events.len(), 4);
        assert_eq!(events[0], events1[0]);
        assert_eq!(events[1], events1[1]);
        assert_eq!(events[2], events2[0]);
        assert_eq!(events[3], events2[1]);
    }

    append_game(&mut file, &events(&events3));

    let (_, chunks) = load_game(&file).unwrap();
    let events = read_events(&chunks);
    assert_eq!(events.len(), 5);
    assert_eq!(events[0], events1[0]);
    assert_eq!(events[1], events1[1]);
    assert_eq!(events[2], events2[0]);
    assert_eq!(events[3], events2[1]);
    assert_eq!(events[4], events3[0]);
}

#[test]
fn test_old_file() {
    // Do we get the proper error trying to read a file that's too old?
    let mut h = header();
    h.major_version = MAJOR_VERSION - 1;
    let mut file = new_with_header(&h);
    append_game(&mut file, &events(&[1, 2]));

    let err = load_game(&file).unwrap_err();
    assert_eq!(err, LoadError::BadVersion(BadVersionError::new(MAJOR_VERSION - 1)));
    match err {
        LoadError::BadVersion(e) => {
            let desc = e.to_string();
            assert!(desc.contains("Expected file version"));
            assert_eq!(desc, "Expected file version 1 but found version 0");
        }
        _ => panic!("expected a version error"),
    }
}

#[test]
fn version_message_has_the_found_version() {
    assert_eq!(BadVersionError::new(255).to_string(), "Expected file version 1 but found version 255");
    assert_eq!(BadVersionError::new(42).to_string(), "Expected file version 1 but found version 42");
}

#[test]
fn frames_are_little_endian_lengths() {
    let mut out = Vec::new();
    append_frame(&mut out, &[7u8; 258]);
    assert_eq!(out.len(), 262);
    assert_eq!(&out[..4], &[2, 1, 0, 0]);
    assert_eq!(out[4], 7);
}

#[test]
fn truncated_files_are_errors() {
    assert_eq!(load_game(&[]).unwrap_err(), LoadError::Truncated);
    assert_eq!(load_game(&[5, 0, 0]).unwrap_err(), LoadError::Truncated);
    assert_eq!(load_game(&[5, 0, 0, 0, 1]).unwrap_err(), LoadError::Truncated);

    let mut file = new_with_header(&header());
    append_game(&mut file, &events(&[1, 2, 3]));
    file.pop();
    assert_eq!(load_game(&file).unwrap_err(), LoadError::Truncated);
}

#[test]
fn a_few_trailing_bytes_end_the_chunks() {
    let mut file = new_with_header(&header());
    append_game(&mut file, &events(&[9]));
    file.extend_from_slice(&[1, 2, 3]);
    let (_, chunks) = load_game(&file).unwrap();
    assert_eq!(read_events(&chunks), vec![9]);
}

#[test]
fn garbage_header_is_an_error() {
    let mut file = Vec::new();
    append_frame(&mut file, &[1]);
    assert_eq!(load_game(&file).unwrap_err(), LoadError::BadHeader);
}

#[test]
fn an_unreadable_save_starts_a_new_game_with_its_error_first() {
    let warnings = vec!["bad flag".to_string()];
    let plan = load_plan("p", Err("gone".to_string()), None, &warnings);
    assert_eq!(plan.seed, 1);
    assert!(!plan.replay);
    let texts: Vec<String> = plan.messages.iter().map(|m| m.text.clone()).collect();
    assert_eq!(texts, vec!["Couldn't open p for reading: gone".to_string(), "bad flag".to_string()]);
    assert!(plan.messages.iter().all(|m| m.topic == Topic::Error));
}

#[test]
fn a_readable_save_is_replayed_when_it_can_be_appended_to() {
    let plan = load_plan("p", Ok((7, 3)), Some(Ok(())), &Vec::new());
    assert_eq!(plan.seed, 7);
    assert!(plan.replay);
    assert!(plan.messages.is_empty());
}

#[test]
fn a_save_that_cannot_be_appended_to_is_not_replayed() {
    let plan = load_plan("p", Ok((7, 3)), Some(Err("locked".to_string())), &Vec::new());
    assert_eq!(plan.seed, 7);
    assert!(!plan.replay);
    assert_eq!(plan.messages.len(), 1);
    assert_eq!(plan.messages[0].text, "Couldn't open p for appending: locked");
}

#[test]
fn a_save_without_actions_starts_a_new_game_with_its_seed() {
    let plan = load_plan("p", Ok((9, 0)), None, &Vec::new());
    assert_eq!(plan.seed, 9);
    assert!(!plan.replay);
    assert!(plan.messages.is_empty());
}
