use cat::{CatOptions, NumberingMode, TransducerState};

fn plain() -> CatOptions {
    CatOptions {
        numbering_mode: NumberingMode::Off,
        end_char: None,
        squeeze_blank: false,
        tab_char: None,
        show_nonprinting: false,
    }
}

#[test]
fn default_config_concatenates() {
    let inputs = vec![b"hello\n".to_vec(), b"wor\nld".to_vec(), Vec::new(), b"!".to_vec()];
    let out = cat::transducer::concat(&plain(), &inputs);
    assert_eq!(out, b"hello\nwor\nld!".to_vec());
}

#[test]
fn fast_print_matches_slow_path() {
    let inputs = vec![b"a\nb".to_vec(), b"\n\nc".to_vec()];
    let fast = cat::fast_print(&inputs);
    let slow = cat::transducer::concat(&plain(), &inputs);
    assert_eq!(fast, slow);
    assert_eq!(fast, b"a\nb\n\nc".to_vec());
}

#[test]
fn scenario_squeeze_and_number() {
    let opts = CatOptions {
        numbering_mode: NumberingMode::All,
        squeeze_blank: true,
        ..plain()
    };
    let inputs = vec![b"a\n\n\nb\n".to_vec()];
    let out = cat::transducer::concat(&opts, &inputs);
    assert_eq!(out, b"     1\ta\n     2\t\n     3\tb\n".to_vec());
}

#[test]
fn numbering_continues_across_files() {
    let opts = CatOptions { numbering_mode: NumberingMode::All, ..plain() };
    let inputs = vec![b"x\n".to_vec(), b"y\n".to_vec()];
    let out = cat::transducer::concat(&opts, &inputs);
    assert_eq!(out, b"     1\tx\n     2\ty\n".to_vec());
}

#[test]
fn squeeze_collapses_across_files() {
    let opts = CatOptions { squeeze_blank: true, ..plain() };
    let inputs = vec![b"a\n\n".to_vec(), b"\n\nb\n".to_vec()];
    let out = cat::transducer::concat(&opts, &inputs);
    assert_eq!(out, b"a\n\nb\n".to_vec());
}

#[test]
fn squeeze_collapses_long_run() {
    let opts = CatOptions { squeeze_blank: true, ..plain() };
    let inputs = vec![b"a\n\n\n\n\n\nb\n".to_vec()];
    let out = cat::transducer::concat(&opts, &inputs);
    assert_eq!(out, b"a\n\nb\n".to_vec());
}

#[test]
fn number_nonblank_skips_blank_lines() {
    let opts = CatOptions { numbering_mode: NumberingMode::NonEmpty, ..plain() };
    let inputs = vec![b"a\n\nb\n".to_vec()];
    let out = cat::transducer::concat(&opts, &inputs);
    assert_eq!(out, b"     1\ta\n\n     2\tb\n".to_vec());
}

#[test]
fn number_nonblank_counter_only_advances_when_numbered() {
    let opts = CatOptions { numbering_mode: NumberingMode::NonEmpty, ..plain() };
    let inputs = vec![b"\n\na\n".to_vec()];
    let out = cat::transducer::concat(&opts, &inputs);
    assert_eq!(out, b"\n\n     1\ta\n".to_vec());
}

#[test]
fn undelimited_final_line_is_numbered() {
    let opts = CatOptions { numbering_mode: NumberingMode::All, ..plain() };
    let inputs = vec![b"x".to_vec()];
    let out = cat::transducer::concat(&opts, &inputs);
    assert_eq!(out, b"     1\tx".to_vec());
}

#[test]
fn end_marker_before_every_delimiter_only() {
    let opts = CatOptions { end_char: Some(b"$".to_vec()), ..plain() };
    let inputs = vec![b"hi\nlast".to_vec()];
    let out = cat::transducer::concat(&opts, &inputs);
    assert_eq!(out, b"hi$\nlast".to_vec());
}

#[test]
fn end_marker_on_blank_lines() {
    let opts = CatOptions { end_char: Some(b"$".to_vec()), ..plain() };
    let inputs = vec![b"\n\n".to_vec()];
    let out = cat::transducer::concat(&opts, &inputs);
    assert_eq!(out, b"$\n$\n".to_vec());
}

#[test]
fn end_marker_with_nonprinting_escapes() {
    let opts = CatOptions {
        end_char: Some(b"$".to_vec()),
        show_nonprinting: true,
        ..plain()
    };
    let inputs = vec![b"\x00\n".to_vec()];
    let out = cat::transducer::concat(&opts, &inputs);
    assert_eq!(out, b"^@$\n".to_vec());
}

#[test]
fn tab_replacement_takes_priority_over_escaping() {
    let opts = CatOptions {
        tab_char: Some(b"<TAB>".to_vec()),
        show_nonprinting: true,
        ..plain()
    };
    let inputs = vec![b"\tx\n".to_vec()];
    let out = cat::transducer::concat(&opts, &inputs);
    assert_eq!(out, b"<TAB>x\n".to_vec());
}

#[test]
fn tab_replacement_alone_leaves_lines_raw() {
    // The byte-by-byte rewrite runs only with an end marker or
    // show-nonprinting active; a tab replacement alone changes nothing.
    let opts = CatOptions { tab_char: Some(b"^I".to_vec()), ..plain() };
    let inputs = vec![b"a\tb\n".to_vec()];
    let out = cat::transducer::concat(&opts, &inputs);
    assert_eq!(out, b"a\tb\n".to_vec());
}

#[test]
fn show_all_combination() {
    let opts = CatOptions {
        end_char: Some(b"$".to_vec()),
        tab_char: Some(b"^I".to_vec()),
        show_nonprinting: true,
        ..plain()
    };
    let inputs = vec![b"a\t\x7f\n".to_vec()];
    let out = cat::transducer::concat(&opts, &inputs);
    assert_eq!(out, b"a^I^?$\n".to_vec());
}

#[test]
fn empty_streams_produce_nothing() {
    let opts = CatOptions {
        numbering_mode: NumberingMode::All,
        squeeze_blank: true,
        ..plain()
    };
    let inputs = vec![Vec::new(), Vec::new()];
    let out = cat::transducer::concat(&opts, &inputs);
    assert_eq!(out, Vec::<u8>::new());
}

#[test]
fn state_persists_between_process_input_calls() {
    let opts = CatOptions { numbering_mode: NumberingMode::All, ..plain() };
    let mut state = TransducerState::new();
    let mut out: Vec<u8> = Vec::new();
    cat::process_input(&opts, &mut state, &b"x\n".to_vec(), &mut out);
    assert_eq!(state.line_number, 2);
    cat::process_input(&opts, &mut state, &b"y\n".to_vec(), &mut out);
    assert_eq!(state.line_number, 3);
    assert_eq!(out, b"     1\tx\n     2\ty\n".to_vec());
}

#[test]
fn squeeze_state_persists_between_process_input_calls() {
    let opts = CatOptions { squeeze_blank: true, ..plain() };
    let mut state = TransducerState::new();
    let mut out: Vec<u8> = Vec::new();
    cat::process_input(&opts, &mut state, &b"a\n\n".to_vec(), &mut out);
    assert!(state.was_blank);
    cat::process_input(&opts, &mut state, &b"\nb\n".to_vec(), &mut out);
    assert_eq!(out, b"a\n\nb\n".to_vec());
}
