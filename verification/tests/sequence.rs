use sn3218::command::{frame, split_mask, I2C_ADDRESS};
use sn3218::{Action, Event, Sequence};

#[test]
fn frame_puts_the_command_first() {
    assert_eq!(frame(0x13, &[1, 2, 3]), vec![0x13, 1, 2, 3]);
    assert_eq!(frame(0x16, &[0xFF]), vec![0x16, 0xFF]);
    assert_eq!(frame(0x00, &[]), vec![0x00]);
}

#[test]
fn split_mask_takes_six_bits_a_group() {
    assert_eq!(split_mask(0x3FFFF), [0x3F, 0x3F, 0x3F]);
    assert_eq!(split_mask(0x1), [0x01, 0x00, 0x00]);
    assert_eq!(split_mask(0x40), [0x00, 0x01, 0x00]);
    assert_eq!(split_mask(0x1000), [0x00, 0x00, 0x01]);
    assert_eq!(split_mask(0x2_0000), [0x00, 0x00, 0x20]);
    assert_eq!(split_mask(0x4_0000), [0x00, 0x00, 0x00]);
    assert_eq!(split_mask(0b101010_010101_110011), [0b110011, 0b010101, 0b101010]);
}

#[test]
fn the_chip_answers_at_its_fixed_address() {
    assert_eq!(I2C_ADDRESS, 0x54);
}

#[test]
fn an_empty_sequence_finishes_at_once() {
    let sequence = Sequence::new(Vec::new());
    assert!(matches!(sequence.step::<u8>(Event::Begin), Action::Finish(Ok(()))));
}

#[test]
fn a_sequence_hands_out_its_frames_in_order() {
    let sequence = Sequence::new(vec![vec![1, 2], vec![3], vec![4, 5, 6]]);
    let mut seen: Vec<Vec<u8>> = Vec::new();
    let mut action = sequence.step::<u8>(Event::Begin);
    loop {
        match action {
            Action::Write { address, bytes, rest } => {
                assert_eq!(address, 0x54);
                seen.push(bytes);
                action = rest.step(Event::Written);
            }
            Action::Finish(result) => {
                assert_eq!(result, Ok(()));
                break;
            }
        }
    }
    assert_eq!(seen, vec![vec![1, 2], vec![3], vec![4, 5, 6]]);
}

#[test]
fn a_failure_finishes_the_sequence_with_its_error() {
    let sequence = Sequence::new(vec![vec![1, 2], vec![3]]);
    match sequence.step::<&str>(Event::Begin) {
        Action::Write { address, bytes, rest } => {
            assert_eq!(address, 0x54);
            assert_eq!(bytes, vec![1, 2]);
            assert!(matches!(rest.step(Event::Failed("nack")), Action::Finish(Err("nack"))));
        }
        Action::Finish(_) => panic!("nothing was written"),
    }
}

#[test]
fn a_failure_on_the_last_frame_is_passed_on() {
    let sequence = Sequence::new(vec![vec![9]]);
    match sequence.step::<u16>(Event::Begin) {
        Action::Write { rest, .. } => {
            assert!(matches!(rest.step(Event::Failed(404)), Action::Finish(Err(404))));
        }
        Action::Finish(_) => panic!("nothing was written"),
    }
}

#[test]
fn an_outcome_is_reported_as_the_event_it_is() {
    assert!(matches!(Event::after(Ok::<(), u8>(())), Event::Written));
    assert!(matches!(Event::after(Err::<(), u8>(3)), Event::Failed(3)));
}

#[test]
fn a_failure_before_the_first_write_writes_nothing() {
    let sequence = Sequence::new(vec![vec![1, 2]]);
    assert!(matches!(sequence.step(Event::Failed(7u8)), Action::Finish(Err(7))));
}
