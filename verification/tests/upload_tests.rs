use backup_util::CHUNK_SIZE;
use backup_util::upload::RunAction;
use backup_util::upload::RunEvent;
use backup_util::upload::UploadRun;

fn expect_edit(action: RunAction) -> String {
    match action {
        RunAction::EditHead { text } => text,
        _ => panic!("expected a head edit"),
    }
}

fn expect_file(action: RunAction) -> (String, Vec<u8>) {
    match action {
        RunAction::SendFile { name, bytes } => (name, bytes),
        _ => panic!("expected a file message"),
    }
}

fn expect_text(action: RunAction) -> String {
    match action {
        RunAction::SendText { content } => content,
        _ => panic!("expected a text message"),
    }
}

#[test]
fn end_to_end_two_chunks_and_a_half() {
    // An archive of exactly 2*CHUNK_SIZE + 500 bytes must go out as three
    // chunk messages; its level-0 script lists three download calls, fits
    // in one chunk, and the run closes with one message inlining that
    // chunk's identifier.
    let endpoint = "http://hooks.example/api/1";
    let n = 2 * CHUNK_SIZE + 500;
    let block: Vec<u8> = (0..1000u32).map(|i| (i % 239) as u8).collect();
    let mut archive: Vec<u8> = Vec::with_capacity(n);
    while archive.len() + block.len() <= n {
        archive.extend_from_slice(&block);
    }
    let rest = n - archive.len();
    archive.extend_from_slice(&block[..rest]);
    let reference = archive.clone();

    let (mut run, first) = UploadRun::new(endpoint.to_string(), archive, CHUNK_SIZE).unwrap();
    assert_eq!(expect_edit(first), "Publishing artifact...");

    let (name, bytes) = expect_file(run.step(RunEvent::Edited));
    assert_eq!(name, "chunk_0.zip");
    assert_eq!(bytes, reference[..CHUNK_SIZE].to_vec());

    let (name, bytes) = expect_file(run.step(RunEvent::Delivered { id: 101 }));
    assert_eq!(name, "chunk_1.zip");
    assert_eq!(bytes, reference[CHUNK_SIZE..2 * CHUNK_SIZE].to_vec());

    let (name, bytes) = expect_file(run.step(RunEvent::Delivered { id: 102 }));
    assert_eq!(name, "chunk_2.zip");
    assert_eq!(bytes, reference[2 * CHUNK_SIZE..].to_vec());
    assert_eq!(bytes.len(), 500);

    let text = expect_edit(run.step(RunEvent::Delivered { id: 103 }));
    assert_eq!(text, "Uploading download script...");

    let advisory = expect_text(run.step(RunEvent::Edited));
    assert_eq!(
        advisory,
        ":warning: Do not manually download files below! :warning:\n\nThose are for the download script."
    );

    let (name, script) = expect_file(run.step(RunEvent::Delivered { id: 104 }));
    assert_eq!(name, "script_0_0");
    let expected_script = format!(
        "dl(){{ curl -f -L \"$(curl -f -L \"{}/messages/$1\"|grep -Eo '\"url\":\"[^\"]+\"'|grep -Eo 'https[^\"]+')\">>dl_backup.zip;if [ ! $? -eq 0 ];then sleep 5;dl \"$1\";fi }};printf \"\">dl_backup.zip;dl 101;dl 102;dl 103",
        endpoint
    );
    assert_eq!(script, expected_script.clone().into_bytes());
    assert!(script.len() <= CHUNK_SIZE, "the level-0 script fits in one chunk");
    assert!(
        expected_script.ends_with(";dl 101;dl 102;dl 103"),
        "the level-0 script lists one download call per chunk, in order"
    );

    let completion = expect_text(run.step(RunEvent::Delivered { id: 555 }));
    let expected_completion = format!(
        "Upload complete!\n\nTo automatically download the backup archive, use the following script:```sh\ncurl -f -L \"$(curl -f -L \"{}/messages/{}\" | grep -Eo '\"url\":\"[^\"]+\"' | grep -Eo 'https[^\"]+')\" | sh -\n```\n\nMake sure `curl` and `grep` are installed.",
        endpoint, 555
    );
    assert_eq!(completion, expected_completion);

    let final_text = expect_edit(run.step(RunEvent::Delivered { id: 556 }));
    assert_eq!(
        final_text,
        "Backup completed successfully.\n\nTo assemble the original archive, download all 3 chunks and concatenate them into a single file"
    );

    assert!(matches!(run.step(RunEvent::Edited), RunAction::Finished));
}

#[test]
fn empty_archive_still_sends_one_chunk() {
    let (mut run, first) = UploadRun::new("http://e".to_string(), Vec::new(), 1000).unwrap();
    expect_edit(first);
    let (name, bytes) = expect_file(run.step(RunEvent::Edited));
    assert_eq!(name, "chunk_0.zip");
    assert!(bytes.is_empty());
    let text = expect_edit(run.step(RunEvent::Delivered { id: 1 }));
    assert_eq!(text, "Uploading download script...");
}

#[test]
fn multi_level_run_keeps_chunk_order() {
    // A small chunk size forces the level-0 script itself to be chunked;
    // the run must walk every level to the single terminal message.
    let archive: Vec<u8> = (0..40_000u32).map(|i| (i % 201) as u8).collect();
    let cs = 400;
    let (mut run, first) = UploadRun::new("http://e".to_string(), archive.clone(), cs).unwrap();
    expect_edit(first);
    let mut event = RunEvent::Edited;
    let mut next_id = 1u64;
    let mut archive_chunks: Vec<(String, Vec<u8>)> = Vec::new();
    let mut script_names: Vec<String> = Vec::new();
    let mut advisories = 0usize;
    let mut steps = 0;
    let completion = loop {
        steps += 1;
        assert!(steps < 10_000, "the run must terminate");
        match run.step(event) {
            RunAction::SendFile { name, bytes } => {
                if name.starts_with("chunk_") {
                    archive_chunks.push((name, bytes));
                } else {
                    script_names.push(name);
                }
                event = RunEvent::Delivered { id: next_id };
                next_id += 1;
            }
            RunAction::SendText { content } => {
                if content.starts_with("Upload complete!") {
                    break content;
                }
                assert!(content.starts_with(":warning:"), "only advisories besides completion");
                advisories += 1;
                event = RunEvent::Delivered { id: next_id };
                next_id += 1;
            }
            RunAction::EditHead { .. } => {
                event = RunEvent::Edited;
            }
            RunAction::Finished => panic!("the completion message must come first"),
        }
    };
    // Archive chunks went out in index order and reassemble the archive.
    let mut joined: Vec<u8> = Vec::new();
    for (i, (name, bytes)) in archive_chunks.iter().enumerate() {
        assert_eq!(name, &format!("chunk_{}.zip", i));
        joined.extend_from_slice(bytes);
    }
    assert_eq!(joined, archive);
    // More than one script level was needed, each level's uploads came
    // after their own advisory, and the chain closed on the last delivered
    // chunk's identifier.
    assert!(script_names.iter().any(|n| n.starts_with("script_1_")));
    let levels = 1 + script_names
        .iter()
        .filter_map(|n| n.split('_').nth(1))
        .filter_map(|l| l.parse::<usize>().ok())
        .max()
        .unwrap();
    assert_eq!(advisories, levels, "one advisory message per script level");
    assert!(completion.contains(&format!("/messages/{}", next_id - 1)));
}
