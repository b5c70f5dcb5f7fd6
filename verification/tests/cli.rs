use bix::{ArgCommand, Args, ErrorKind, Job, LayoutConfig, PatchRequest};

fn view(width: usize, no_group: bool, no_addr: bool, no_ascii: bool, raw: bool) -> Args {
    Args {
        command: ArgCommand::View {
            file: "data.bin".to_string(),
            offset: 0x20,
            number: Some(64),
            width,
            no_group,
            no_addr,
            no_ascii,
            raw,
        },
    }
}

#[test]
fn view_with_defaults_shows_every_column() {
    assert_eq!(
        view(16, false, false, false, false).job(),
        Ok(Job::Render {
            file: "data.bin".to_string(),
            offset: 0x20,
            number: Some(64),
            layout: LayoutConfig::default(),
        })
    );
}

#[test]
fn view_flags_switch_columns_off() {
    for no_group in [false, true] {
        for no_addr in [false, true] {
            for no_ascii in [false, true] {
                for raw in [false, true] {
                    let job = view(7, no_group, no_addr, no_ascii, raw).job();
                    let layout = LayoutConfig {
                        width: 7,
                        show_address: !no_addr,
                        group_mid: !no_group,
                        show_ascii: !no_ascii,
                        raw_mode: raw,
                    };
                    assert_eq!(
                        job,
                        Ok(Job::Render {
                            file: "data.bin".to_string(),
                            offset: 0x20,
                            number: Some(64),
                            layout,
                        })
                    );
                }
            }
        }
    }
}

#[test]
fn view_without_a_number_reads_to_the_end() {
    let args = Args {
        command: ArgCommand::View {
            file: "f".to_string(),
            offset: 0,
            number: None,
            width: 16,
            no_group: false,
            no_addr: false,
            no_ascii: false,
            raw: false,
        },
    };
    match args.job() {
        Ok(Job::Render { number, offset, .. }) => {
            assert_eq!(number, None);
            assert_eq!(offset, 0);
        }
        other => panic!("{:?}", other),
    }
}

#[test]
fn view_of_width_zero_is_turned_down() {
    assert_eq!(view(0, false, false, false, false).job(), Err(ErrorKind::InvalidWidth));
    assert_eq!(view(0, true, true, true, true).job(), Err(ErrorKind::InvalidWidth));
}

#[test]
fn set_becomes_a_patch_request() {
    let args = Args {
        command: ArgCommand::SetBytes {
            file: "data.bin".to_string(),
            bytes: vec![0xAA, 0xDD, 0xCC, 0xBA],
            offset: 0x10,
        },
    };
    assert_eq!(
        args.job(),
        Ok(Job::Patch {
            file: "data.bin".to_string(),
            request: PatchRequest { offset: 0x10, payload: vec![0xAA, 0xDD, 0xCC, 0xBA] },
        })
    );
}

#[test]
fn commands_that_are_accepted() {
    assert!(view(16, false, false, false, false).command.accepted());
    assert!(view(0, false, false, false, false).command.accepted());
    assert!(view(usize::MAX / 3, true, false, false, false).command.accepted());
    assert!(!view(usize::MAX / 3 + 1, true, false, false, false).command.accepted());
    assert!(!view(usize::MAX, false, false, false, false).command.accepted());
    let set = |bytes: Vec<u8>| ArgCommand::SetBytes { file: "f".to_string(), bytes, offset: 0 };
    assert!(set(vec![1]).accepted());
    assert!(!set(vec![]).accepted());
}
