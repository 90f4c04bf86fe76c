use protohackers::proxy::{rewrite, PATTERN, TONY_ADDR, UPSTREAM_ADDR};

const TONY: &str = "7YWHMfk9JZe0LM0g1ZauHuiSxhI";

fn rewritten(line: &str) -> String {
    rewrite(line).unwrap()
}

#[test]
fn an_address_is_replaced() {
    assert_eq!(
        rewritten("Hi alice, please send payment to 7iKDZEwPZSqIvDnHvVN2r0hUWXD5rHX\n"),
        format!("Hi alice, please send payment to {}\n", TONY)
    );
    assert_eq!(rewritten("7F1u3wSD5RbOHQmupo9nx4TnhQ\n"), format!("{}\n", TONY));
    assert_eq!(rewritten("7F1u3wSD5RbOHQmupo9nx4TnhQ"), TONY);
    assert_eq!(
        rewritten("[bob] 7LOrwbDlS8NujgjddyogWgIM93MV5N2VR is mine\n"),
        format!("[bob] {} is mine\n", TONY)
    );
}

#[test]
fn every_address_of_a_line_is_replaced() {
    assert_eq!(
        rewritten(
            "pay 7adNeSwJkMakpEcln9HEtthSRtxdmEHOT8T or 7F1u3wSD5RbOHQmupo9nx4TnhQ please\n"
        ),
        format!("pay {} or {} please\n", TONY, TONY)
    );
    assert_eq!(
        rewritten("7adNeSwJkMakpEcln9HEtthSRtxdmEHOT8T 7F1u3wSD5RbOHQmupo9nx4TnhQ\n"),
        format!("{} {}\n", TONY, TONY)
    );
}

#[test]
fn other_lines_pass_unchanged() {
    for line in [
        "",
        "\n",
        "hello there\n",
        "* bob has entered the room\n",
        "7tooshort\n",
        "7AAAAAAAAAAAAAAAAAAAAAAAAAAAAAAAAAAA\n",
        "7F1u3wSD5RbOHQmupo9nx4TnhQ-1234\n",
        "8F1u3wSD5RbOHQmupo9nx4TnhQx\n",
    ] {
        assert_eq!(rewritten(line), line);
    }
}

#[test]
fn constants() {
    assert_eq!(UPSTREAM_ADDR, "chat.protohackers.com:16963");
    assert_eq!(TONY_ADDR, "${1}7YWHMfk9JZe0LM0g1ZauHuiSxhI${2}");
    assert_eq!(PATTERN, r"( ?)7[?:A-Za-z0-9]{25,34}($| |\n)");
}
