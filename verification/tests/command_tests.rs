use sarnath::command::CommandSpec;

fn strings(items: &[&str]) -> Vec<String> {
    items.iter().map(|s| String::from(*s)).collect()
}

#[test]
fn parse_splits_program_and_arguments() {
    let c = CommandSpec::parse("echo Cthulhu");
    assert_eq!(c.program, "echo");
    assert_eq!(c.args, strings(&["Cthulhu"]));
}

#[test]
fn parse_of_one_word_has_no_arguments() {
    let c = CommandSpec::parse(":");
    assert_eq!(c.program, ":");
    assert!(c.args.is_empty());
}

#[test]
fn parse_of_the_empty_line_is_an_empty_program() {
    let c = CommandSpec::parse("");
    assert_eq!(c, CommandSpec { program: String::new(), args: Vec::new() });
}

#[test]
fn parse_keeps_empty_tokens_between_spaces() {
    let c = CommandSpec::parse("a  b");
    assert_eq!(c.program, "a");
    assert_eq!(c.args, strings(&["", "b"]));
}

#[test]
fn parse_keeps_empty_tokens_at_both_ends() {
    let c = CommandSpec::parse(" ls -l ");
    assert_eq!(c.program, "");
    assert_eq!(c.args, strings(&["ls", "-l", ""]));
}

#[test]
fn parse_of_a_single_space_is_two_empty_tokens() {
    let c = CommandSpec::parse(" ");
    assert_eq!(c.program, "");
    assert_eq!(c.args, strings(&[""]));
}

#[test]
fn parse_knows_no_quoting() {
    let c = CommandSpec::parse("sh -c \"echo a b\"");
    assert_eq!(c.program, "sh");
    assert_eq!(c.args, strings(&["-c", "\"echo", "a", "b\""]));
}

#[test]
fn parse_splits_on_spaces_only() {
    let c = CommandSpec::parse("a\tb\nc d");
    assert_eq!(c.program, "a\tb\nc");
    assert_eq!(c.args, strings(&["d"]));
}

#[test]
fn parse_counts_characters_not_bytes() {
    let c = CommandSpec::parse("écho ñandú €5 done");
    assert_eq!(c.program, "écho");
    assert_eq!(c.args, strings(&["ñandú", "€5", "done"]));
}

#[test]
fn parse_then_join_gives_the_line_back() {
    for line in ["", " ", "a", "a b", " a  b ", "cargo run --release", "é è  ê"] {
        let c = CommandSpec::parse(line);
        let mut tokens = vec![c.program.clone()];
        tokens.extend(c.args.iter().cloned());
        assert_eq!(tokens.join(" "), line);
        assert_eq!(tokens.len(), line.matches(' ').count() + 1);
        assert!(tokens.iter().all(|t| !t.contains(' ')));
    }
}
