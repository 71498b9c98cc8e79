use backup_util::script::LevelOutcome;
use backup_util::script::ReassemblyScriptBuilder;

fn level0_header(ep: &str) -> String {
    format!(
        "dl(){{ curl -f -L \"$(curl -f -L \"{}/messages/$1\"|grep -Eo '\"url\":\"[^\"]+\"'|grep -Eo 'https[^\"]+')\">>dl_backup.zip;if [ ! $? -eq 0 ];then sleep 5;dl \"$1\";fi }};printf \"\">dl_backup.zip",
        ep
    )
}

fn completion(ep: &str, id: u64) -> String {
    format!(
        "Upload complete!\n\nTo automatically download the backup archive, use the following script:```sh\ncurl -f -L \"$(curl -f -L \"{}/messages/{}\" | grep -Eo '\"url\":\"[^\"]+\"' | grep -Eo 'https[^\"]+')\" | sh -\n```\n\nMake sure `curl` and `grep` are installed.",
        ep, id
    )
}

/// Drives a whole chain for a fabricated number of archive chunks and
/// returns the chunk count of each level's script, in level order.
fn drive_chain(entries: u64, cs: usize) -> Vec<usize> {
    let mut b = ReassemblyScriptBuilder::new("http://e".to_string(), cs).unwrap();
    for i in 0..entries {
        b.note_archive_chunk(1_000_000 + i);
    }
    b.seal_archive();
    let mut counts: Vec<usize> = Vec::new();
    let mut id = 5_000_000u64;
    loop {
        let k = b.script_chunk_count();
        counts.push(k);
        for i in 0..k {
            let name = b.next_chunk_name();
            assert_eq!(name, format!("script_{}_{}", counts.len() - 1, i));
            let bytes = b.next_chunk();
            assert!(bytes.len() <= cs);
            b.on_chunk_delivered(id);
            id += 1;
        }
        match b.finish_level() {
            LevelOutcome::Terminal(_) => break,
            LevelOutcome::Promoted => {
                assert!(counts.len() < 80, "chain failed to terminate");
            }
        }
    }
    counts
}

fn check_chain_shape(counts: &[usize]) {
    // The chain only grows while a level needed more than one chunk, and
    // every level needs strictly fewer chunks than the one below it.
    assert_eq!(*counts.last().unwrap(), 1);
    for w in counts.windows(2) {
        assert!(w[0] > 1, "chain grew although the previous level fit in one chunk");
        assert!(w[1] < w[0], "a level needed at least as many chunks as the one below");
    }
}

#[test]
fn chain_for_one_chunk() {
    let counts = drive_chain(1, 400);
    check_chain_shape(&counts);
    assert_eq!(counts.len(), 1);
}

#[test]
fn chain_for_two_chunks() {
    let counts = drive_chain(2, 400);
    check_chain_shape(&counts);
    assert_eq!(counts.len(), 1);
}

#[test]
fn chain_for_thousand_chunks() {
    let counts = drive_chain(1000, 400);
    check_chain_shape(&counts);
    assert!(counts.len() > 1);
    assert!(counts.len() <= 6, "level count should grow only logarithmically");
}

#[test]
fn chain_for_million_chunks() {
    let counts = drive_chain(1_000_000, 10_000);
    check_chain_shape(&counts);
    assert!(counts.len() > 1);
    assert!(counts.len() <= 6, "level count should grow only logarithmically");
}

#[test]
fn too_small_chunk_size_is_refused() {
    assert!(ReassemblyScriptBuilder::new("http://e".to_string(), 100).is_none());
}

#[test]
fn single_chunk_level_terminates_with_inline_id() {
    let ep = "http://hooks.example/api/webhooks/7/x";
    let mut b = ReassemblyScriptBuilder::new(ep.to_string(), 25_000_000).unwrap();
    b.note_archive_chunk(42);
    b.note_archive_chunk(43);
    b.seal_archive();
    assert_eq!(b.script_chunk_count(), 1);
    assert_eq!(b.next_chunk_name(), "script_0_0");
    let chunk = b.next_chunk();
    let expected_script = format!("{};dl 42;dl 43", level0_header(ep));
    assert_eq!(chunk, expected_script.into_bytes());
    b.on_chunk_delivered(777);
    match b.finish_level() {
        LevelOutcome::Terminal(text) => assert_eq!(text, completion(ep, 777)),
        LevelOutcome::Promoted => panic!("a one-chunk level must terminate the chain"),
    }
}

#[test]
fn promoted_level_script_lists_script_chunks() {
    // A chunk size just over the minimum forces the level-0 script to
    // split, and the level-1 script must fetch exactly those chunks.
    let ep = "http://e";
    let mut b = ReassemblyScriptBuilder::new(ep.to_string(), 400).unwrap();
    for i in 0..100u64 {
        b.note_archive_chunk(900_000_000 + i);
    }
    b.seal_archive();
    let k = b.script_chunk_count();
    assert!(k > 1);
    let mut joined: Vec<u8> = Vec::new();
    for i in 0..k {
        let bytes = b.next_chunk();
        joined.extend_from_slice(&bytes);
        b.on_chunk_delivered(3_000 + i as u64);
    }
    // The chunks of the level-0 script reassemble to that script.
    let mut expected_script = level0_header(ep);
    for i in 0..100u64 {
        expected_script.push_str(&format!(";dl {}", 900_000_000 + i));
    }
    assert_eq!(joined, expected_script.into_bytes());
    match b.finish_level() {
        LevelOutcome::Terminal(_) => panic!("a multi-chunk level must promote"),
        LevelOutcome::Promoted => {}
    }
    // The promoted script downloads the level-0 chunks in order, then runs
    // and removes the temporary file.
    let k1 = b.script_chunk_count();
    assert!(k1 < k);
    let mut level1: Vec<u8> = Vec::new();
    for i in 0..k1 {
        assert_eq!(b.next_chunk_name(), format!("script_1_{}", i));
        let bytes = b.next_chunk();
        level1.extend_from_slice(&bytes);
        b.on_chunk_delivered(9_000 + i as u64);
    }
    let mut expected1 = format!(
        "TFILE=mktemp;dl(){{ curl -f -L \"$(curl -f -L \"{}/messages/$1\"|grep -Eo '\"url\":\"[^\"]+\"'|grep -Eo 'https[^\"]+')\">>$TFILE;if [ ! $? -eq 0 ];then sleep 5;dl \"$1\";fi }};printf \"\">$TFILE",
        ep
    );
    for i in 0..k {
        expected1.push_str(&format!(";dl {}", 3_000 + i));
    }
    expected1.push_str(";sh $TFILE;rm $TFILE");
    assert_eq!(level1, expected1.into_bytes());
}
