use live_inputs::midi::{first_port, interpret, MidiEvent, FIRST_CHANNEL, LAST_CHANNEL, NO_INPUT};

#[test]
fn channel_twelve_is_dropped() {
    assert_eq!(interpret(&[0x9C, 60, 100]), None);
}

#[test]
fn channel_sixteen_wraps_to_zero_and_is_dropped() {
    // A status byte has four channel bits: sixteen does not fit, and reads as zero.
    assert_eq!(interpret(&[0x90u8.wrapping_add(16), 60, 100]), None);
    assert_eq!(interpret(&[0x90, 60, 100]), None);
}

#[test]
fn channels_thirteen_to_fifteen_pass() {
    assert_eq!(interpret(&[0x9D, 60, 100]), Some(MidiEvent { channel: 14, note: 60, velocity: 100 }));
    assert_eq!(interpret(&[0x9E, 61, 101]), Some(MidiEvent { channel: 15, note: 61, velocity: 101 }));
    assert_eq!(interpret(&[0x9F, 62, 102]), Some(MidiEvent { channel: 16, note: 62, velocity: 102 }));
}

#[test]
fn every_status_byte_is_filtered_by_its_low_bits() {
    for status in 0u8..=255 {
        let low = status & 0x0F;
        let event = interpret(&[status, 1, 2]);
        if (13..=15).contains(&low) {
            assert_eq!(event, Some(MidiEvent { channel: low + 1, note: 1, velocity: 2 }));
        } else {
            assert_eq!(event, None);
        }
    }
}

#[test]
fn short_messages_are_ignored() {
    assert_eq!(interpret(&[]), None);
    assert_eq!(interpret(&[0x9D]), None);
    assert_eq!(interpret(&[0x9D, 60]), None);
    assert_eq!(interpret(&[0xFE]), None);
}

#[test]
fn longer_messages_use_the_first_three_bytes() {
    assert_eq!(
        interpret(&[0xBE, 7, 127, 99, 98]),
        Some(MidiEvent { channel: 15, note: 7, velocity: 127 })
    );
}

#[test]
fn status_kind_does_not_matter() {
    assert_eq!(interpret(&[0x8D, 60, 0]), Some(MidiEvent { channel: 14, note: 60, velocity: 0 }));
    assert_eq!(interpret(&[0x0F, 200, 255]), Some(MidiEvent { channel: 16, note: 200, velocity: 255 }));
}

#[test]
fn payload_is_channel_note_velocity() {
    let event = interpret(&[0x9E, 64, 90]).unwrap();
    assert_eq!(event.payload(), (15, 64, 90));
}

#[test]
fn filter_bounds() {
    assert_eq!(FIRST_CHANNEL, 13);
    assert_eq!(LAST_CHANNEL, 15);
}

#[test]
fn first_port_is_port_zero() {
    assert_eq!(first_port(0), None);
    assert_eq!(first_port(1), Some(0));
    assert_eq!(first_port(5), Some(0));
    assert_eq!(NO_INPUT, "no midi input");
}
