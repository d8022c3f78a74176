use see_k::plan::{
    channels, last_segments, plan, plan_channels, plan_parsed, seek, SeekError,
};

fn names(names: &[&str]) -> Vec<String> {
    names.iter().map(|name| name.to_string()).collect()
}

fn receivers(input: &str) -> Vec<String> {
    seek(input).unwrap().lanes.into_iter().map(|lane| lane.receiver).collect()
}

#[test]
fn lanes_are_named_after_their_types() {
    let plan = seek("Command, Reply").unwrap();
    assert_eq!(plan.lanes.len(), 2);
    assert_eq!(plan.lanes[0].receiver, "from_dude_command");
    assert_eq!(plan.lanes[0].sender, "to_dude_command");
    assert_eq!(plan.lanes[0].input, "__seek_input_command");
    assert_eq!(plan.lanes[0].output, "__seek_output_command");
    assert_eq!(plan.lanes[1].receiver, "from_dude_reply");
    assert_eq!(plan.lanes[1].sender, "to_dude_reply");
    assert_eq!(plan.lanes[1].input, "__seek_input_reply");
    assert_eq!(plan.lanes[1].output, "__seek_output_reply");
}

#[test]
fn the_order_of_types_is_the_order_of_lanes() {
    assert_eq!(receivers("Reply, Command"), ["from_dude_reply", "from_dude_command"]);
}

#[test]
fn paths_are_called_by_their_last_segment() {
    assert_eq!(
        receivers("crate::wire::PingMessage, ::other::Pong, super::Vec2<u8>"),
        ["from_dude_pingmessage", "from_dude_pong", "from_dude_vec2"]
    );
}

#[test]
fn a_trailing_comma_is_accepted() {
    assert_eq!(receivers("Message,"), ["from_dude_message"]);
}

#[test]
fn an_empty_list_is_refused() {
    for input in ["", "  "] {
        let error = seek(input).unwrap_err();
        assert!(matches!(error, SeekError::Empty));
        assert_eq!(error.message(), "seek! requires at least one message type");
    }
    assert!(matches!(plan(&names(&[])), Err(SeekError::Empty)));
}

#[test]
fn names_that_differ_only_in_case_are_refused() {
    let error = seek("Ping, Pong, a::PING, b::Pong").unwrap_err();
    assert!(matches!(error, SeekError::Duplicate { index: 2 }));
    assert_eq!(error.message(), "seek! types must have distinct lowercase channel names");
    assert!(matches!(plan(&names(&["A", "a"])), Err(SeekError::Duplicate { index: 1 })));
}

#[test]
fn anything_but_a_list_of_paths_is_refused() {
    for input in ["Command Reply", "1", ",", "Command,,Reply", "fn", "Command, 'a'", "\"x\""] {
        let error = seek(input).unwrap_err();
        match error {
            SeekError::Syntax(ref text) => assert_eq!(&error.message(), text),
            _ => panic!("{input} is no list of paths"),
        }
    }
}

#[test]
fn lowercase_is_that_of_unicode() {
    let plan = plan(&names(&["STRA\u{df}E", "\u{c9}T\u{c9}"])).unwrap();
    assert_eq!(plan.lanes[0].sender, "to_dude_stra\u{df}e");
    assert_eq!(plan.lanes[1].sender, "to_dude_\u{e9}t\u{e9}");
}

#[test]
fn no_two_names_of_a_plan_are_the_same() {
    let plan = plan(&names(&["A", "B", "Input_A", "Dude_A", "From_Dude_A"])).unwrap();
    let mut all = Vec::new();
    for lane in plan.lanes {
        all.extend([lane.receiver, lane.sender, lane.input, lane.output]);
    }
    let count = all.len();
    all.sort();
    all.dedup();
    assert_eq!(all.len(), count);
}

#[test]
fn channels_are_lowercase_names() {
    assert_eq!(channels(&names(&["Command", "HTTPReply_2"])), ["command", "httpreply_2"]);
    assert!(channels(&names(&[])).is_empty());
}

#[test]
fn channel_names_are_taken_as_they_are() {
    let plan = plan_channels(&names(&["a", "A"])).unwrap();
    assert_eq!(plan.lanes[1].input, "__seek_input_A");
    let error = plan_channels(&names(&["x", "y", "x"])).unwrap_err();
    assert!(matches!(error, SeekError::Duplicate { index: 2 }));
}

#[test]
fn a_failed_parse_is_reported_as_it_is() {
    let error = plan_parsed(Err("expected identifier".to_string())).unwrap_err();
    assert_eq!(error.message(), "expected identifier");
    let parsed = vec![names(&["Ping"]), names(&["crate", "wire", "Pong"])];
    let plan = plan_parsed(Ok(parsed)).unwrap();
    assert_eq!(plan.lanes[0].sender, "to_dude_ping");
    assert_eq!(plan.lanes[1].sender, "to_dude_pong");
    assert!(matches!(plan_parsed(Ok(Vec::new())), Err(SeekError::Empty)));
}

#[test]
fn the_last_segment_of_a_path_counts() {
    let paths = vec![names(&["a", "B", "C"]), names(&["D"])];
    assert_eq!(last_segments(&paths), ["C", "D"]);
    assert!(last_segments(&Vec::new()).is_empty());
}

#[test]
fn a_list_may_stand_on_several_lines() {
    assert_eq!(
        receivers("\n\tCommand,\r\n\tcrate::wire::Reply ,\n"),
        ["from_dude_command", "from_dude_reply"]
    );
    assert!(matches!(seek(" \n\t\r\n"), Err(SeekError::Empty)));
}

#[test]
fn module_names_may_be_lowercase() {
    assert_eq!(
        receivers("crate::proto::Command, ::gen_2::_m::reply , self::super::Self"),
        ["from_dude_command", "from_dude_reply", "from_dude_self"]
    );
}

#[test]
fn reserved_words_are_no_segments() {
    for word in [
        "_", "abstract", "as", "async", "await", "become", "box", "break", "const", "continue",
        "do", "dyn", "else", "enum", "extern", "false", "final", "fn", "for", "if", "impl", "in",
        "let", "loop", "macro", "match", "mod", "move", "mut", "override", "priv", "pub", "ref",
        "return", "static", "struct", "trait", "true", "try", "type", "typeof", "unsafe",
        "unsized", "use", "virtual", "where", "while", "yield",
    ] {
        assert!(matches!(seek(word), Err(SeekError::Syntax(_))), "{word}");
        assert!(matches!(seek(&format!("crate::{word}::A")), Err(SeekError::Syntax(_))), "{word}");
        assert!(seek(&format!("crate::{word}x::A")).is_ok(), "{word}");
    }
}

#[test]
fn type_arguments_are_no_part_of_a_name() {
    assert_eq!(
        receivers("Vec<Command>, a::Pair<Vec<u8>, Reply>"),
        ["from_dude_vec", "from_dude_pair"]
    );
    assert!(matches!(seek("Vec<A>, Vec<B>"), Err(SeekError::Duplicate { index: 1 })));
}

#[test]
fn syntax_errors_are_those_of_the_parser() {
    let text = |input: &str| seek(input).unwrap_err().message();
    assert_eq!(text("Command Reply"), "expected `,`");
    assert_eq!(text("Command,,Reply"), "expected identifier");
    assert_eq!(text("Command, 1"), "expected identifier");
    assert_eq!(text("Vec<Command"), "expected `,`");
}

#[test]
fn lists_of_type_names_are_parsed_as_those_names() {
    assert_eq!(receivers("A, B_2, Self"), ["from_dude_a", "from_dude_b_2", "from_dude_self"]);
}
