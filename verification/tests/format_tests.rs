use kdoom::{Lump, Patch, PatchBank, WadError, WadFile, WadKind, WadSource, WadStack};

/// Builds the bytes of an archive: header, lump data, then the directory.
fn wad_bytes(magic: &[u8], entries: &[(&str, Vec<u8>)]) -> Vec<u8> {
    let mut offsets: Vec<usize> = Vec::new();
    let mut cur: usize = 12;
    for (_, d) in entries {
        offsets.push(cur);
        cur += d.len();
    }
    let dir_off = cur;
    let mut out: Vec<u8> = Vec::new();
    out.extend_from_slice(magic);
    out.extend_from_slice(&(entries.len() as u32).to_le_bytes());
    out.extend_from_slice(&(dir_off as u32).to_le_bytes());
    for (_, d) in entries {
        out.extend_from_slice(d);
    }
    for (i, (name, d)) in entries.iter().enumerate() {
        out.extend_from_slice(&(offsets[i] as u32).to_le_bytes());
        out.extend_from_slice(&(d.len() as u32).to_le_bytes());
        let mut nm = [0u8; 8];
        for (k, b) in name.bytes().enumerate() {
            nm[k] = b;
        }
        out.extend_from_slice(&nm);
    }
    out
}

fn iwad_bytes(entries: &[(&str, Vec<u8>)]) -> Vec<u8> {
    wad_bytes(b"IWAD", entries)
}

/// A marker, three interior lumps of the given sizes, and a tail lump.
fn marker_block(sizes: [usize; 3]) -> Vec<(String, Vec<u8>)> {
    let mut v = vec![("MARK".to_string(), Vec::new())];
    for (i, s) in sizes.iter().enumerate() {
        v.push((format!("L{}", i), vec![0u8; *s]));
    }
    v.push(("TAIL".to_string(), Vec::new()));
    v
}

fn open_iwad(entries: &[(&str, Vec<u8>)]) -> WadFile {
    WadFile::open("test.wad", &iwad_bytes(entries)).unwrap()
}

#[test]
fn bad_magic_is_malformed() {
    let err = WadFile::open("x.wad", b"JUNKJUNKJUNK").unwrap_err();
    assert!(err.is_malformed());
}

#[test]
fn truncated_header_is_malformed() {
    let err = WadFile::open("x.wad", b"IWAD\x01\x00").unwrap_err();
    assert!(err.is_malformed());
}

#[test]
fn directory_outside_file_is_malformed() {
    // One entry claimed at offset 1000, far past the end.
    let mut bytes = b"IWAD".to_vec();
    bytes.extend_from_slice(&1u32.to_le_bytes());
    bytes.extend_from_slice(&1000u32.to_le_bytes());
    assert!(WadFile::open("x.wad", &bytes).unwrap_err().is_malformed());
}

#[test]
fn illegal_lump_name_is_malformed() {
    // A lowercase byte in a directory name is illegal.
    let bytes = iwad_bytes(&[("bad", Vec::new())]);
    assert!(WadFile::open("x.wad", &bytes).unwrap_err().is_malformed());
}

#[test]
fn lump_data_outside_file_is_malformed() {
    // Size runs past the end of the file.
    let mut bytes = b"IWAD".to_vec();
    bytes.extend_from_slice(&1u32.to_le_bytes());
    bytes.extend_from_slice(&12u32.to_le_bytes());
    bytes.extend_from_slice(&12u32.to_le_bytes()); // offset
    bytes.extend_from_slice(&500u32.to_le_bytes()); // size, past the end
    bytes.extend_from_slice(b"THING\0\0\0");
    assert!(WadFile::open("x.wad", &bytes).unwrap_err().is_malformed());
}

#[test]
fn header_fields_decode_little_endian() {
    let f = open_iwad(&[("HELLO", vec![1, 2, 3]), ("WORLD", Vec::new())]);
    assert_eq!(f.kind(), WadKind::Iwad);
    assert_eq!(f.path(), "test.wad");
    assert_eq!(f.lump("HELLO").unwrap().size(), 3);
    assert_eq!(f.lump("HELLO").unwrap().data(), &vec![1, 2, 3]);
    assert!(f.try_lump("ABSENT").unwrap().is_none());
}

#[test]
fn expect_checks_kind() {
    let f = open_iwad(&[]);
    assert!(matches!(
        f.expect(WadKind::Pwad),
        Err(WadError::WrongType { expected: WadKind::Pwad, .. })
    ));
    let f = open_iwad(&[]);
    assert!(f.expect(WadKind::Iwad).is_ok());
}

#[test]
fn duplicate_name_fails_unique_lookup_but_stays_positional() {
    let f = open_iwad(&[
        ("A_START", Vec::new()),
        ("X", vec![1]),
        ("X", vec![2, 2]),
        ("A_END", Vec::new()),
    ]);
    // Ambiguous by name...
    assert!(f.lump("X").unwrap_err().is_malformed());
    assert!(f.try_lump("X").unwrap_err().is_malformed());
    // ...but both occurrences sit in the marker block.
    let block = f.lumps_between("A_START", "A_END").unwrap();
    assert_eq!(block.len(), 4);
    assert_eq!(block[1].size(), 1);
    assert_eq!(block[2].size(), 2);
}

#[test]
fn between_markers_is_order_sensitive() {
    let f = open_iwad(&[
        ("FIRST", Vec::new()),
        ("MID", vec![7]),
        ("LAST", Vec::new()),
    ]);
    assert_eq!(f.lumps_between("FIRST", "LAST").unwrap().len(), 3);
    // Swapping a valid pair must fail, never return a reversed slice.
    assert!(f.lumps_between("LAST", "FIRST").unwrap_err().is_malformed());
    assert!(f.try_lumps_between("LAST", "FIRST").unwrap_err().is_malformed());
    // One marker without the other is an error, not absence.
    assert!(f.try_lumps_between("FIRST", "NOPE").unwrap_err().is_malformed());
    // Both markers absent is absence.
    assert!(f.try_lumps_between("NO1", "NO2").unwrap().is_none());
}

#[test]
fn following_needs_a_lump_beyond_the_block() {
    let f = open_iwad(&[
        ("M", Vec::new()),
        ("A", Vec::new()),
        ("B", Vec::new()),
        ("C", Vec::new()),
    ]);
    // Exactly three lumps after the marker: a three-lump block is refused...
    assert!(f.lumps_following("M", 3).unwrap_err().is_malformed());
    // ...a two-lump block succeeds, marker included in the slice.
    let block = f.lumps_following("M", 2).unwrap();
    assert_eq!(block.len(), 3);
    assert_eq!(block[0].name, "M");
    assert!(f.try_lumps_following("ABSENT", 2).unwrap().is_none());
}

#[test]
fn picture_header_fields_decode() {
    // Width 2, height 5, left -3, top 7; two empty columns.
    let mut pic: Vec<u8> = Vec::new();
    pic.extend_from_slice(&2u16.to_le_bytes());
    pic.extend_from_slice(&5u16.to_le_bytes());
    pic.extend_from_slice(&(-3i16).to_le_bytes());
    pic.extend_from_slice(&7i16.to_le_bytes());
    pic.extend_from_slice(&16u32.to_le_bytes());
    pic.extend_from_slice(&16u32.to_le_bytes());
    pic.push(255);
    let lump = Lump::new("t.wad".to_string(), "PIC".to_string(), pic);
    let p = Patch::load(&lump).unwrap();
    assert_eq!(p.name(), "PIC");
    assert_eq!(p.width(), 2);
    assert_eq!(p.height(), 5);
    assert_eq!(p.left(), -3);
    assert_eq!(p.top(), 7);
    assert_eq!(p.columns().len(), 2);
    assert!(p.columns()[0].posts.is_empty());
}

#[test]
fn tall_patch_second_post_resolves_to_sum() {
    // One column: a post at row 10 with two pixels, then a post whose
    // stored byte 5 is below 10 and so resolves to 15.
    let mut pic: Vec<u8> = Vec::new();
    pic.extend_from_slice(&1u16.to_le_bytes());
    pic.extend_from_slice(&32u16.to_le_bytes());
    pic.extend_from_slice(&0i16.to_le_bytes());
    pic.extend_from_slice(&0i16.to_le_bytes());
    pic.extend_from_slice(&12u32.to_le_bytes());
    pic.extend_from_slice(&[10, 2, 0, 41, 42, 0]);
    pic.extend_from_slice(&[5, 1, 0, 43, 0]);
    pic.push(255);
    let lump = Lump::new("t.wad".to_string(), "TALL".to_string(), pic);
    let p = Patch::load(&lump).unwrap();
    let posts = &p.columns()[0].posts;
    assert_eq!(posts.len(), 2);
    assert_eq!(posts[0].y_offset, 10);
    assert_eq!(posts[0].pixels, vec![41, 42]);
    assert_eq!(posts[1].y_offset, 15);
    assert_eq!(posts[1].pixels, vec![43]);
}

#[test]
fn greater_offset_stays_absolute() {
    // The second post's stored byte 20 exceeds 10, so it stays absolute.
    let mut pic: Vec<u8> = Vec::new();
    pic.extend_from_slice(&1u16.to_le_bytes());
    pic.extend_from_slice(&32u16.to_le_bytes());
    pic.extend_from_slice(&0i16.to_le_bytes());
    pic.extend_from_slice(&0i16.to_le_bytes());
    pic.extend_from_slice(&12u32.to_le_bytes());
    pic.extend_from_slice(&[10, 1, 0, 9, 0]);
    pic.extend_from_slice(&[20, 1, 0, 9, 0]);
    pic.push(255);
    let lump = Lump::new("t.wad".to_string(), "PIC".to_string(), pic);
    let p = Patch::load(&lump).unwrap();
    let posts = &p.columns()[0].posts;
    assert_eq!(posts[1].y_offset, 20);
}

#[test]
fn truncated_picture_is_malformed() {
    // The column offset points past the end of the lump.
    let mut pic: Vec<u8> = Vec::new();
    pic.extend_from_slice(&1u16.to_le_bytes());
    pic.extend_from_slice(&8u16.to_le_bytes());
    pic.extend_from_slice(&0i16.to_le_bytes());
    pic.extend_from_slice(&0i16.to_le_bytes());
    pic.extend_from_slice(&900u32.to_le_bytes());
    let lump = Lump::new("t.wad".to_string(), "PIC".to_string(), pic);
    assert!(Patch::load(&lump).unwrap_err().is_malformed());

    // A post's pixel run past the end of the lump.
    let mut pic: Vec<u8> = Vec::new();
    pic.extend_from_slice(&1u16.to_le_bytes());
    pic.extend_from_slice(&8u16.to_le_bytes());
    pic.extend_from_slice(&0i16.to_le_bytes());
    pic.extend_from_slice(&0i16.to_le_bytes());
    pic.extend_from_slice(&12u32.to_le_bytes());
    pic.extend_from_slice(&[0, 200, 0, 1]);
    let lump = Lump::new("t.wad".to_string(), "PIC".to_string(), pic);
    assert!(Patch::load(&lump).unwrap_err().is_malformed());
}

#[test]
fn overlay_precedence_and_unshadowing() {
    let a = WadFile::open(
        "a.wad",
        &iwad_bytes(&[("X", vec![1]), ("ONLYA", vec![9])]),
    )
    .unwrap();
    let b = WadFile::open("b.wad", &iwad_bytes(&[("X", vec![2, 2])])).unwrap();
    let c = WadFile::open("c.wad", &iwad_bytes(&[("OTHER", vec![0])])).unwrap();

    // Both define X: the later archive wins.
    let mut st = WadStack::new();
    st.add(WadSource::File(a));
    st.add(WadSource::File(b));
    assert_eq!(st.lump("X").unwrap().size(), 2);
    // A name only the earlier archive holds shines through.
    assert_eq!(st.lump("ONLYA").unwrap().size(), 1);
    assert!(st.lump("NOWHERE").is_none());

    // With a top archive lacking X, the earlier X is visible again.
    let a2 = WadFile::open("a.wad", &iwad_bytes(&[("X", vec![1])])).unwrap();
    let mut st2 = WadStack::new();
    st2.add(WadSource::File(a2));
    st2.add(WadSource::File(c));
    assert_eq!(st2.lump("X").unwrap().size(), 1);
}

#[test]
fn blocks_never_merge_across_archives() {
    let ea = marker_block([1, 1, 1]);
    let eb = marker_block([2, 2, 2]);
    let ra: Vec<(&str, Vec<u8>)> = ea.iter().map(|(n, d)| (n.as_str(), d.clone())).collect();
    let rb: Vec<(&str, Vec<u8>)> = eb.iter().map(|(n, d)| (n.as_str(), d.clone())).collect();
    let a = WadFile::open("a.wad", &iwad_bytes(&ra)).unwrap();
    let b = WadFile::open("b.wad", &iwad_bytes(&rb)).unwrap();
    let mut st = WadStack::new();
    st.add(WadSource::File(a));
    st.add(WadSource::File(b));
    let sizes: Vec<usize> =
        st.lumps_after("MARK", 3).unwrap().iter().map(|l| l.size()).collect();
    // All interior lumps come from the winning archive, never a mix.
    assert_eq!(sizes, vec![2, 2, 2]);
}

#[test]
fn patch_bank_rejects_bad_name_list() {
    // A name list whose count overruns the lump.
    let mut pnames: Vec<u8> = 40u32.to_le_bytes().to_vec();
    pnames.extend_from_slice(&[0u8; 8]);
    let wad =
        WadStack::iwad("t.wad", &iwad_bytes(&[("PNAMES", pnames)])).unwrap();
    assert!(matches!(PatchBank::load(&wad), Err(WadError::Malformed { .. })));

    // A listed name with an illegal character.
    let mut pnames: Vec<u8> = 1u32.to_le_bytes().to_vec();
    pnames.extend_from_slice(b"BAD?NAME");
    let wad =
        WadStack::iwad("t.wad", &iwad_bytes(&[("PNAMES", pnames)])).unwrap();
    assert!(matches!(PatchBank::load(&wad), Err(WadError::Malformed { .. })));

    // A listed name that resolves to no lump.
    let mut pnames: Vec<u8> = 1u32.to_le_bytes().to_vec();
    pnames.extend_from_slice(b"GHOST\0\0\0");
    let wad =
        WadStack::iwad("t.wad", &iwad_bytes(&[("PNAMES", pnames)])).unwrap();
    assert!(matches!(PatchBank::load(&wad), Err(WadError::Malformed { .. })));
}

#[test]
fn starting_with_patch_kind_is_a_type_error() {
    let pbytes = wad_bytes(b"PWAD", &[]);
    let ibytes = wad_bytes(b"IWAD", &[]);
    // A patch archive cannot start a stack.
    assert!(matches!(
        WadStack::iwad("p.wad", &pbytes),
        Err(WadError::WrongType { expected: WadKind::Iwad, .. })
    ));
    // A primary archive cannot be overlaid as a patch.
    let mut st = WadStack::iwad("i.wad", &ibytes).unwrap();
    assert!(matches!(
        st.add_pwad("i2.wad", &ibytes),
        Err(WadError::WrongType { expected: WadKind::Pwad, .. })
    ));
}
