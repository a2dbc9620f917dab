use risc_v_assembler::assembler::parser::parse_immediate;
use risc_v_assembler::assembler::parser::parse_ld_or_sd;
use risc_v_assembler::assembler::parser::parse_register;
use risc_v_assembler::assembler::parser::trimmed_line;
use risc_v_assembler::utils::exception::AsmRiscVError;

/// Every text over `alphabet` of at most `max_len` characters.
fn texts(alphabet: &[char], max_len: usize) -> Vec<String> {
    let mut all = vec![String::new()];
    let mut last = vec![String::new()];
    for _ in 0..max_len {
        let mut next = Vec::new();
        for text in &last {
            for c in alphabet {
                let mut longer = text.clone();
                longer.push(*c);
                next.push(longer);
            }
        }
        all.extend(next.iter().cloned());
        last = next;
    }
    all
}

#[test]
fn blanks_are_the_white_space_of_the_standard_library() {
    for code in 0..=0x10_ffffu32 {
        if let Some(c) = char::from_u32(code) {
            let alone = trimmed_line(&c.to_string());
            assert_eq!(alone.is_err(), c.is_whitespace(), "U+{:04X}", code);
            let around = trimmed_line(&format!("{}a{}", c, c));
            if c.is_whitespace() {
                assert_eq!(around, Ok("a".to_string()), "U+{:04X}", code);
            } else {
                assert_eq!(around, Ok(format!("{}a{}", c, c)), "U+{:04X}", code);
            }
        }
    }
}

#[test]
fn trimming_agrees_with_the_standard_library() {
    for text in texts(&[' ', '\t', 'a', '#', '\u{a0}'], 6) {
        let expected = if text.trim().is_empty() {
            Err(AsmRiscVError::ParseEmptyLine)
        } else {
            Ok(text.trim().to_string())
        };
        assert_eq!(trimmed_line(&text), expected, "{:?}", text);
    }
}

#[test]
fn decimal_immediates_agree_with_the_standard_library() {
    for text in texts(&['+', '-', '0', '1', '2', '9', ' ', 'a'], 5) {
        let expected = match text.trim().parse::<i32>() {
            Ok(n) if (-2048..=2047).contains(&n) => Ok(n),
            Ok(_) => Err(AsmRiscVError::ImmediateOverflow),
            Err(_) => Err(AsmRiscVError::SyntaxError),
        };
        assert_eq!(parse_immediate(Some(&text), false), expected, "{:?}", text);
    }
}

#[test]
fn prefixed_immediates_agree_with_the_standard_library() {
    for (prefix, radix, digits) in [
        ("0x", 16, vec!['+', '-', '0', '7', '8', 'a', 'f', 'F', 'g', ' ']),
        ("0o", 8, vec!['+', '-', '0', '1', '7', '8', 'a', ' ']),
        ("0b", 2, vec!['+', '-', '0', '1', '2', ' ']),
    ] {
        let max_len = if radix == 2 { 7 } else { 5 };
        for rest in texts(&digits, max_len) {
            let text = format!("{}{}", prefix, rest);
            let trimmed = text.trim();
            let expected = match u32::from_str_radix(&trimmed[2..], radix) {
                Ok(raw) => Ok(((raw as i32) << 20) >> 20),
                Err(_) => Err(AsmRiscVError::SyntaxError),
            };
            assert_eq!(parse_immediate(Some(&text), false), expected, "{:?}", text);
        }
    }
}

#[test]
fn long_hexadecimal_immediates_agree_with_the_standard_library() {
    for text in ["0xffffffff", "0x100000000", "0x0ffffffff", "0x+ffffffff", "0xfffffffff", "0x80000800", "0x7ffff7ff"] {
        let expected = match u32::from_str_radix(&text[2..], 16) {
            Ok(raw) => Ok(((raw as i32) << 20) >> 20),
            Err(_) => Err(AsmRiscVError::SyntaxError),
        };
        assert_eq!(parse_immediate(Some(text), false), expected, "{:?}", text);
    }
}

#[test]
fn register_indices_agree_with_the_standard_library() {
    for rest in texts(&['+', '-', '0', '1', '3', '9', ' ', 'x'], 5) {
        let text = format!("x{}", rest);
        let expected = match text.trim()[1..].parse::<u32>() {
            Ok(r) if r <= 31 => Ok(r),
            Ok(_) => Err(AsmRiscVError::NotExistRegister),
            Err(_) => Err(AsmRiscVError::SyntaxError),
        };
        assert_eq!(parse_register(Some(&text)), expected, "{:?}", text);
    }
}

#[test]
fn base_offset_operands_agree_with_the_standard_library() {
    for text in texts(&['(', ')', 'x', '1', '-', ' '], 7) {
        let token = text.trim();
        let expected = match token.split_once('(') {
            None => Err(AsmRiscVError::SyntaxError),
            Some((left, right)) => {
                let right = right.trim();
                if !right.starts_with('x') || !right.ends_with(')') {
                    Err(AsmRiscVError::SyntaxError)
                } else {
                    let name = right.trim_end_matches(')').trim();
                    match left.trim().parse::<i32>() {
                        Err(_) => Err(AsmRiscVError::SyntaxError),
                        Ok(imm) if !(-2048..=2047).contains(&imm) => {
                            Err(AsmRiscVError::ImmediateOverflow)
                        }
                        Ok(imm) => match name[1..].parse::<u32>() {
                            Err(_) => Err(AsmRiscVError::SyntaxError),
                            Ok(r) if r > 31 => Err(AsmRiscVError::NotExistRegister),
                            Ok(r) => Ok((imm, r)),
                        },
                    }
                }
            }
        };
        assert_eq!(parse_ld_or_sd(Some(&text)), expected, "{:?}", text);
    }
}
