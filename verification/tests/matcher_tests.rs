#[test]
fn a_literal_pattern_matches_only_itself() {
    assert!(message_trigger::matcher::matches("message.test", "message.test"));
    assert!(!message_trigger::matcher::matches("message.test", "message.tes"));
    assert!(!message_trigger::matcher::matches("message.test", "message.test2"));
}

#[test]
fn a_star_matches_any_run_within_the_subject() {
    assert!(message_trigger::matcher::matches("message.*", "message.test"));
    assert!(message_trigger::matcher::matches("message.*", "message."));
    assert!(message_trigger::matcher::matches("message.*", "message.a.b.c"));
    assert!(!message_trigger::matcher::matches("message.*", "test.message"));
}

#[test]
fn a_star_in_the_middle_matches_any_run() {
    assert!(message_trigger::matcher::matches("request.*.POST.echo", "request.01H5.POST.echo"));
    assert!(!message_trigger::matcher::matches("request.*.POST.echo", "request.01H5.GET.echo"));
}

#[test]
fn a_question_mark_matches_exactly_one_character() {
    assert!(message_trigger::matcher::matches("message.?", "message.a"));
    assert!(!message_trigger::matcher::matches("message.?", "message."));
    assert!(!message_trigger::matcher::matches("message.?", "message.ab"));
}

#[test]
fn matching_is_whole_string() {
    assert!(!message_trigger::matcher::matches("message", "message.test"));
    assert!(!message_trigger::matcher::matches("message.test", "message"));
    assert!(message_trigger::matcher::matches("*", "anything at all"));
    assert!(message_trigger::matcher::matches("*", ""));
}
