use trimothy::NormalizeWhitespace;

#[test]
fn t_normalized_control() {
    let example = " \0 Hello\0  Dolly. \x1b";
    let chars: Vec<char> = example.chars().collect();

    // Control is control.
    assert_eq!(
        chars.as_slice().normalized_whitespace().collect_vec().into_iter().collect::<String>(),
        "\0 Hello\0 Dolly. \x1b",
    );

    // Control is whitespace.
    assert_eq!(
        chars
            .as_slice()
            .normalized_control_and_whitespace()
            .collect_vec()
            .into_iter()
            .collect::<String>(),
        "Hello Dolly.",
    );

    let example = example.as_bytes();
    // Control is control.
    assert_eq!(
        example.normalized_whitespace().collect_vec(),
        b"\0 Hello\0 Dolly. \x1b",
    );

    // Control is whitespace.
    assert_eq!(example.normalized_control_and_whitespace().collect_vec(), b"Hello Dolly.");
}
