use netpong::netpong::{
    local_port, peer_port, zero, Ball, OneOfUpdateType, Paddle, Update, WireError, PORT,
};
use quick_protobuf::{BytesReader, Writer};

fn bits(x: f32) -> u32 {
    x.to_bits()
}

#[test]
fn a_paddle_is_one_field_of_four_bytes() {
    let m = Paddle { y: bits(1.5) };
    let mut out = Vec::new();
    assert_eq!(m.write_message(&mut out), Ok(()));
    assert_eq!(out, vec![13, 0x00, 0x00, 0xC0, 0x3F]);
    assert_eq!(m.get_size(), 5);
    assert_eq!(Paddle::from_reader(&out), Ok(m));
}

#[test]
fn a_zero_is_not_written() {
    let m = Paddle { y: bits(0.0) };
    let mut out = Vec::new();
    assert_eq!(m.write_message(&mut out), Ok(()));
    assert!(out.is_empty());
    assert_eq!(m.get_size(), 0);
    assert_eq!(Paddle::from_reader(&out), Ok(m));
}

#[test]
fn minus_zero_comes_back_as_zero() {
    let m = Paddle { y: bits(-0.0) };
    assert!(zero(m.y));
    let mut out = Vec::new();
    assert_eq!(m.write_message(&mut out), Ok(()));
    assert!(out.is_empty());
    assert_eq!(Paddle::from_reader(&out), Ok(Paddle { y: 0 }));
}

#[test]
fn writing_appends_to_what_is_there() {
    let mut out = vec![1, 2, 3];
    assert_eq!(Paddle { y: 1 }.write_message(&mut out), Ok(()));
    assert_eq!(out, vec![1, 2, 3, 13, 1, 0, 0, 0]);
}

#[test]
fn a_ball_is_up_to_four_fields() {
    let m = Ball { x: bits(400.0), y: bits(300.0), vx: bits(-360.0), vy: bits(360.0) };
    let mut out = Vec::new();
    assert_eq!(m.write_message(&mut out), Ok(()));
    assert_eq!(
        out,
        vec![
            13, 0x00, 0x00, 0xC8, 0x43, 21, 0x00, 0x00, 0x96, 0x43, 29, 0x00, 0x00, 0xB4, 0xC3, 37,
            0x00, 0x00, 0xB4, 0x43
        ]
    );
    assert_eq!(m.get_size(), 20);
    assert_eq!(Ball::from_reader(&out), Ok(m));
    let m = Ball { x: 0, y: bits(2.0), vx: bits(-0.0), vy: 0x0403_0201 };
    let mut out = Vec::new();
    assert_eq!(m.write_message(&mut out), Ok(()));
    assert_eq!(out, vec![21, 0x00, 0x00, 0x00, 0x40, 37, 1, 2, 3, 4]);
    assert_eq!(m.get_size(), 10);
    assert_eq!(Ball::from_reader(&out), Ok(Ball { vx: 0, ..m }));
}

#[test]
fn an_update_holds_a_message_with_its_length() {
    let u = Update { UpdateType: OneOfUpdateType::paddle(Paddle { y: bits(1.5) }) };
    let mut out = Vec::new();
    assert_eq!(u.write_message(&mut out), Ok(()));
    assert_eq!(out, vec![10, 5, 13, 0x00, 0x00, 0xC0, 0x3F]);
    assert_eq!(u.get_size(), 7);
    assert_eq!(Update::from_reader(&out), Ok(u));
    let b = Ball { x: bits(1.0), y: bits(2.0), vx: bits(3.0), vy: bits(4.0) };
    let u = Update { UpdateType: OneOfUpdateType::ball(b) };
    let mut out = Vec::new();
    assert_eq!(u.write_message(&mut out), Ok(()));
    assert_eq!(out.len(), 22);
    assert_eq!(&out[..3], &[18, 20, 13]);
    assert_eq!(u.get_size(), 22);
    assert_eq!(Update::from_reader(&out), Ok(u));
}

#[test]
fn an_update_that_holds_nothing_is_empty() {
    let u = Update { UpdateType: OneOfUpdateType::default() };
    assert_eq!(u.UpdateType, OneOfUpdateType::Unset);
    let mut out = Vec::new();
    assert_eq!(u.write_message(&mut out), Ok(()));
    assert!(out.is_empty());
    assert_eq!(u.get_size(), 0);
    assert_eq!(Update::from_reader(&out), Ok(u));
}

#[test]
fn an_update_of_a_zero_paddle_is_a_tag_and_a_length() {
    let u = Update { UpdateType: OneOfUpdateType::paddle(Paddle { y: 0 }) };
    let mut out = Vec::new();
    assert_eq!(u.write_message(&mut out), Ok(()));
    assert_eq!(out, vec![10, 0]);
    assert_eq!(u.get_size(), 2);
    assert_eq!(Update::from_reader(&out), Ok(u));
}

#[test]
fn fields_with_other_tags_are_passed_over() {
    let bytes = [8, 0x96, 0x01, 13, 1, 0, 0, 0, 18, 2, 0xAA, 0xBB, 25, 1, 2, 3, 4, 5, 6, 7, 8];
    assert_eq!(Paddle::from_reader(&bytes), Ok(Paddle { y: 1 }));
    let bytes = [21, 9, 9, 9, 9, 13, 1, 0, 0, 0];
    assert_eq!(Paddle::from_reader(&bytes), Ok(Paddle { y: 1 }));
    assert_eq!(
        Ball::from_reader(&bytes),
        Ok(Ball { x: 1, y: 0x0909_0909, vx: 0, vy: 0 })
    );
    let bytes = [8, 1, 10, 5, 13, 1, 0, 0, 0, 16, 0];
    assert_eq!(
        Update::from_reader(&bytes),
        Ok(Update { UpdateType: OneOfUpdateType::paddle(Paddle { y: 1 }) })
    );
}

#[test]
fn a_tag_may_be_written_in_more_bytes_than_it_needs() {
    let bytes = [0x8D, 0x00, 7, 0, 0, 0];
    assert_eq!(Paddle::from_reader(&bytes), Ok(Paddle { y: 7 }));
}

#[test]
fn of_a_field_that_comes_twice_the_last_counts() {
    let bytes = [13, 1, 0, 0, 0, 13, 2, 0, 0, 0];
    assert_eq!(Paddle::from_reader(&bytes), Ok(Paddle { y: 2 }));
    let bytes = [10, 5, 13, 1, 0, 0, 0, 18, 5, 21, 2, 0, 0, 0];
    assert_eq!(
        Update::from_reader(&bytes),
        Ok(Update { UpdateType: OneOfUpdateType::ball(Ball { x: 0, y: 2, vx: 0, vy: 0 }) })
    );
}

#[test]
fn a_message_that_ends_too_soon_is_an_error() {
    assert_eq!(Paddle::from_reader(&[13, 1, 0, 0]), Err(WireError::UnexpectedEndOfBuffer));
    assert_eq!(Paddle::from_reader(&[0x80]), Err(WireError::UnexpectedEndOfBuffer));
    assert_eq!(Ball::from_reader(&[13, 1, 0, 0, 0, 21]), Err(WireError::UnexpectedEndOfBuffer));
    assert_eq!(Update::from_reader(&[10]), Err(WireError::UnexpectedEndOfBuffer));
    assert_eq!(Update::from_reader(&[10, 5, 13, 1, 0, 0]), Err(WireError::UnexpectedEndOfBuffer));
    assert_eq!(Update::from_reader(&[10, 4, 13, 1, 0, 0, 0]), Err(WireError::UnexpectedEndOfBuffer));
    assert_eq!(Paddle::from_reader(&[18, 3, 1]), Err(WireError::Varint));
}

#[test]
fn a_field_of_a_kind_that_is_not_known_is_an_error() {
    assert_eq!(Paddle::from_reader(&[11, 0]), Err(WireError::Deprecated));
    assert_eq!(Paddle::from_reader(&[12, 0]), Err(WireError::Deprecated));
    assert_eq!(Paddle::from_reader(&[14, 0]), Err(WireError::UnknownWireType(6)));
    assert_eq!(Update::from_reader(&[15, 0]), Err(WireError::UnknownWireType(7)));
    let long = [0x80, 0x80, 0x80, 0x80, 0x80, 0x80, 0x80, 0x80, 0x80, 0x80, 0x00];
    assert_eq!(Paddle::from_reader(&long), Err(WireError::Varint));
}

#[test]
fn the_form_on_the_wire_is_the_one_of_the_protocol_library() {
    let mut expected = Vec::new();
    {
        let mut w = Writer::new(&mut expected);
        w.write_with_tag(10, |w| {
            w.write_varint(5)?;
            w.write_with_tag(13, |w| w.write_float(-2.25))
        })
        .unwrap();
    }
    let u = Update { UpdateType: OneOfUpdateType::paddle(Paddle { y: bits(-2.25) }) };
    let mut out = Vec::new();
    assert_eq!(u.write_message(&mut out), Ok(()));
    assert_eq!(out, expected);
    let mut r = BytesReader::from_bytes(&out);
    assert_eq!(r.next_tag(&out).unwrap(), 10);
    assert_eq!(r.read_varint32(&out).unwrap(), 5);
    assert_eq!(r.next_tag(&out).unwrap(), 13);
    assert_eq!(r.read_float(&out).unwrap(), -2.25);
    assert!(r.is_eof());
}

#[test]
fn every_pattern_of_bits_survives_the_wire() {
    let patterns = [1u32, 0x7F, 0x80, 0xFF, 0x100, 0xFFFF_FFFF, 0x7FC0_0000, 0x8000_0001,
        0x7F80_0000, 0x1234_5678];
    for p in patterns {
        let b = Ball { x: p, y: !p | 1, vx: p.rotate_left(8) | 1, vy: p.swap_bytes() | 1 };
        let u = Update { UpdateType: OneOfUpdateType::ball(b) };
        let mut out = Vec::new();
        assert_eq!(u.write_message(&mut out), Ok(()));
        assert_eq!(out.len(), u.get_size());
        assert_eq!(Update::from_reader(&out), Ok(u));
    }
}

#[test]
fn the_two_sides_listen_at_neighbouring_ports() {
    assert_eq!(local_port(true), PORT);
    assert_eq!(local_port(false), PORT + 1);
    assert_eq!(peer_port(true), local_port(false));
    assert_eq!(peer_port(false), local_port(true));
    assert_eq!(PORT, 34521);
}

#[test]
fn a_new_message_holds_zeros_and_a_new_update_nothing() {
    assert_eq!(Paddle::default(), Paddle { y: 0 });
    assert_eq!(Ball::default(), Ball { x: 0, y: 0, vx: 0, vy: 0 });
    assert_eq!(OneOfUpdateType::default(), OneOfUpdateType::Unset);
    assert_eq!(Update::default(), Update { UpdateType: OneOfUpdateType::Unset });
    assert_eq!(Update::default().get_size(), 0);
}

/// The varint at the start of the bytes, read for 64 bits or for 32: its
/// number and how many bytes it takes.
fn varint_at(bytes: &[u8], wide: bool) -> Option<(u64, usize)> {
    let mut number: u128 = 0;
    let mut k = 0;
    while k < 10 && k < bytes.len() {
        let b = bytes[k] as u128;
        number += if wide {
            if k < 9 {
                (b % 128) << (7 * k)
            } else {
                (b % 2) << 63
            }
        } else if k < 4 {
            (b % 128) << (7 * k)
        } else if k == 4 {
            (b % 16) << 28
        } else {
            0
        };
        if b < 128 {
            assert!(number <= if wide { u64::MAX as u128 } else { u32::MAX as u128 });
            return Some((number as u64, k + 1));
        }
        k += 1;
    }
    None
}

/// How many bytes the value of a field with an unknown tag takes.
fn unknown_len(bytes: &[u8], tag: u32) -> Option<usize> {
    match tag % 8 {
        0 => varint_at(bytes, true).map(|(_, n)| n),
        1 if bytes.len() >= 8 => Some(8),
        2 => match varint_at(bytes, true) {
            Some((v, n)) if v <= (bytes.len() - n) as u64 => Some(n + v as usize),
            _ => None,
        },
        5 if bytes.len() >= 4 => Some(4),
        _ => None,
    }
}

/// The height that a run of fields leaves a paddle with.
fn paddle_of(bytes: &[u8]) -> Option<u32> {
    let mut y = 0;
    let mut at = 0;
    while at < bytes.len() {
        let (tag, n) = varint_at(&bytes[at..], false)?;
        at += n;
        if tag == 13 {
            let four = bytes.get(at..at + 4)?;
            y = u32::from_le_bytes([four[0], four[1], four[2], four[3]]);
            at += 4;
        } else {
            at += unknown_len(&bytes[at..], tag as u32)?;
        }
    }
    Some(y)
}

/// Bytes that are as often above 127 as below, and often short.
fn some_bytes(seed: &mut u64) -> Vec<u8> {
    let mut next = || {
        *seed = seed.wrapping_mul(6_364_136_223_846_793_005).wrapping_add(1_442_695_040_888_963_407);
        (*seed >> 33) as u32
    };
    let len = (next() % 14) as usize;
    let mut bytes = Vec::new();
    while bytes.len() < len {
        let draw = next();
        bytes.push(match draw % 5 {
            0 => 13,
            1 => (draw >> 8) as u8 % 24,
            2 => 0x80 | (draw >> 8) as u8,
            _ => (draw >> 8) as u8,
        });
    }
    bytes
}

#[test]
fn the_protocol_library_reads_varints_as_stated() {
    let mut seed = 1;
    let mut read = 0;
    for _ in 0..200_000 {
        let bytes = some_bytes(&mut seed);
        let mut r = BytesReader::from_bytes(&bytes);
        let narrow = r.read_varint32(&bytes).ok().map(|v| (v as u64, bytes.len() - r.len()));
        assert_eq!(narrow, varint_at(&bytes, false), "{:?}", bytes);
        let mut r = BytesReader::from_bytes(&bytes);
        let wide = r.read_varint64(&bytes).ok().map(|v| (v, bytes.len() - r.len()));
        assert_eq!(wide, varint_at(&bytes, true), "{:?}", bytes);
        if wide.is_some() {
            read += 1;
        }
    }
    assert!(read > 50_000);
    let all = [0xFF, 0xFF, 0xFF, 0xFF, 0xFF, 0xFF, 0xFF, 0xFF, 0xFF, 0x7F];
    assert_eq!(varint_at(&all, true), Some((u64::MAX, 10)));
    assert_eq!(varint_at(&all, false), Some((u32::MAX as u64, 10)));
    assert_eq!(varint_at(&[0xFF, 0xFF, 0xFF, 0xFF, 0x7F], false), Some((u32::MAX as u64, 5)));
    assert_eq!(varint_at(&[0xAC, 0x02], false), Some((300, 2)));
    assert_eq!(varint_at(&[0x80; 10], true), None);
    assert_eq!(varint_at(&[0x80, 0x80], true), None);
    assert_eq!(varint_at(&[], false), None);
}

#[test]
fn the_protocol_library_passes_over_unknown_fields_as_stated() {
    let mut seed = 2;
    let mut passed = 0;
    for round in 0..200_000u32 {
        let bytes = some_bytes(&mut seed);
        let tag = if round % 3 == 0 { round.wrapping_mul(2_654_435_761) } else { round % 64 };
        let mut r = BytesReader::from_bytes(&bytes);
        let taken = r.read_unknown(&bytes, tag).ok().map(|_| bytes.len() - r.len());
        assert_eq!(taken, unknown_len(&bytes, tag), "{:?} with the tag {}", bytes, tag);
        if taken.is_some() {
            passed += 1;
        }
    }
    assert!(passed > 20_000);
    assert_eq!(unknown_len(&[1, 2, 3, 4, 5, 6, 7, 8, 9], 9), Some(8));
    assert_eq!(unknown_len(&[1, 2, 3, 4, 5, 6, 7], 9), None);
    assert_eq!(unknown_len(&[1, 2, 3, 4, 5], 21), Some(4));
    assert_eq!(unknown_len(&[1, 2, 3], 21), None);
    assert_eq!(unknown_len(&[3, 1, 2, 3], 18), Some(4));
    assert_eq!(unknown_len(&[4, 1, 2, 3], 18), None);
    assert_eq!(unknown_len(&[0x96, 0x01, 7], 8), Some(2));
    for kind in [3, 4, 6, 7] {
        assert_eq!(unknown_len(&[0; 16], 8 + kind), None);
    }
}

#[test]
fn a_paddle_is_read_from_any_bytes_as_stated() {
    let mut seed = 3;
    let mut read = 0;
    for _ in 0..200_000 {
        let bytes = some_bytes(&mut seed);
        let ours = Paddle::from_reader(&bytes).ok().map(|m| m.y);
        assert_eq!(ours, paddle_of(&bytes), "{:?}", bytes);
        if ours.is_some() {
            read += 1;
        }
    }
    assert!(read > 10_000);
    assert_eq!(Paddle::from_reader(&[0x8D, 0x80, 0x80, 0x80, 0x00, 9, 0, 0, 0]), Ok(Paddle { y: 9 }));
    assert_eq!(Paddle::from_reader(&[0x8D, 0x80, 0x80, 0x80, 0x10, 9, 0, 0, 0]), Ok(Paddle { y: 9 }));
    assert_eq!(Paddle::from_reader(&[0x8D, 0x80, 0x80, 0x80, 0x01, 9, 0, 0, 0]), Ok(Paddle { y: 0 }));
}
