use sim8086::decoder::{decode_bitstream, DecodedArgument};

#[test]
fn render_two_and_one_operand_lines() {
    let decoded = decode_bitstream(vec![0x89, 0xD9, 0x74, 0x02]).unwrap();
    assert_eq!(decoded[0].render(), "mov cx, bx");
    assert_eq!(decoded[1].render(), "je 2");
}

#[test]
fn parse_lines() {
    let d = DecodedArgument::parse("mov ax, 5").unwrap();
    assert_eq!(d.operand, "mov");
    assert_eq!(d.destination, "ax");
    assert_eq!(d.source, "5");
    assert_eq!(d.byte_count, 0);
    let d = DecodedArgument::parse("je 2").unwrap();
    assert_eq!(d.operand, "je");
    assert_eq!(d.destination, "2");
    assert_eq!(d.source, "");
    let d = DecodedArgument::parse("mov [bx + si + 4], cl").unwrap();
    assert_eq!(d.destination, "[bx + si + 4]");
    assert_eq!(d.source, "cl");
    assert!(DecodedArgument::parse("nop").is_none());
    assert!(DecodedArgument::parse("").is_none());
}

#[test]
fn decoded_lines_read_back() {
    let bytes = vec![
        0x89, 0xD9, 0xB1, 0x0C, 0x8A, 0x60, 0x04, 0x8B, 0x2E, 0x05, 0x00, 0xC6, 0x03, 0x07,
        0x83, 0xC0, 0x80, 0x74, 0x02, 0xA1, 0xFB, 0x09,
    ];
    let decoded = decode_bitstream(bytes).unwrap();
    assert_eq!(decoded.len(), 8);
    assert_eq!(decoded[7].render(), "mov ax, [2555]");
    for d in &decoded {
        let line = d.render();
        let back = DecodedArgument::parse(&line).unwrap();
        assert_eq!(back.operand, d.operand);
        assert_eq!(back.destination, d.destination);
        assert_eq!(back.source, d.source);
    }
}
