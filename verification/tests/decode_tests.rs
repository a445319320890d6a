use midiplay::decode::{
    get_chunk_type, get_sized_quantity, get_string, get_usize, get_variable_length_quantity,
    ParseState,
};
use midiplay::events::{get_meta_event, get_midi_event, get_track_event};
use midiplay::midi::{
    ControlChange, Event, KeySignature, MetaEvent, Midi, MidiEvent, NoteOff, NoteOn, ParseError,
    PitchWheel, ProgramChange, SetTempo, SmpteOffset, SysexEvent, TimeSignature,
};
use midiplay::reader::parse_midi;

fn state_at(data: Vec<u8>, offset: usize) -> ParseState {
    let mut state = ParseState::new(data);
    state.offset = offset;
    state
}

fn vlq_bytes(v: u32) -> Vec<u8> {
    let mut groups = vec![(v & 0x7f) as u8];
    let mut rest = v >> 7;
    while rest > 0 {
        groups.push(0x80 | (rest & 0x7f) as u8);
        rest >>= 7;
    }
    groups.reverse();
    groups
}

fn header(format: u16, ntrks: u16, division: [u8; 2]) -> Vec<u8> {
    let mut data = b"MThd".to_vec();
    data.extend_from_slice(&[0, 0, 0, 6]);
    data.extend_from_slice(&format.to_be_bytes());
    data.extend_from_slice(&ntrks.to_be_bytes());
    data.extend_from_slice(&division);
    data
}

fn track_chunk(body: &[u8]) -> Vec<u8> {
    let mut data = b"MTrk".to_vec();
    data.extend_from_slice(&(body.len() as u32).to_be_bytes());
    data.extend_from_slice(body);
    data
}

#[test]
fn vlq_round_trip_on_many_values() {
    let mut values: Vec<u32> = vec![0, 1, 0x7f, 0x80, 0x2000, 0x3fff, 0x4000, 0x1f_ffff, 0x20_0000];
    values.push(0x0fff_ffff);
    let mut v: u32 = 3;
    while v < 0x1000_0000 {
        values.push(v);
        v = v * 7 + 5;
    }
    for v in values {
        let bytes = vlq_bytes(v);
        let len = bytes.len();
        let mut state = ParseState::new(bytes);
        assert_eq!(get_variable_length_quantity(&mut state), Ok(v));
        assert_eq!(state.offset, len);
    }
}

#[test]
fn vlq_known_encodings() {
    let mut state = ParseState::new(vec![0x81, 0x00]);
    assert_eq!(get_variable_length_quantity(&mut state), Ok(128));
    assert_eq!(state.offset, 2);
    let mut state = ParseState::new(vec![0xff, 0xff, 0xff, 0x7f, 0x55]);
    assert_eq!(get_variable_length_quantity(&mut state), Ok(0x0fff_ffff));
    assert_eq!(state.offset, 4);
}

#[test]
fn vlq_stops_behind_four_bytes() {
    let mut state = ParseState::new(vec![0x81, 0x82, 0x83, 0x84, 0x05]);
    assert_eq!(
        get_variable_length_quantity(&mut state),
        Ok((((1 * 128 + 2) * 128) + 3) * 128 + 4)
    );
    assert_eq!(state.offset, 4);
}

#[test]
fn vlq_truncated_leaves_the_state() {
    let mut state = state_at(vec![0x00, 0x81, 0x82], 1);
    assert_eq!(
        get_variable_length_quantity(&mut state),
        Err(ParseError::Truncated { offset: 3 })
    );
    assert_eq!(state.offset, 1);
}

#[test]
fn get_usize_reads_big_endian() {
    let mut state = ParseState::new(vec![0x01, 0x02, 0x03, 0x04, 0x05]);
    assert_eq!(get_usize(&mut state), Ok(0x0102_0304));
    assert_eq!(state.offset, 4);
    assert_eq!(get_usize(&mut state), Err(ParseError::Truncated { offset: 4 }));
    assert_eq!(state.offset, 4);
}

#[test]
fn get_chunk_type_reads_four_characters() {
    let mut state = ParseState::new(b"MTrkxyz".to_vec());
    assert_eq!(get_chunk_type(&mut state), Ok(String::from("MTrk")));
    assert_eq!(state.offset, 4);
    assert_eq!(get_chunk_type(&mut state), Err(ParseError::Truncated { offset: 4 }));
}

#[test]
fn get_string_takes_bytes_as_characters() {
    let mut state = state_at(vec![0, b'a', 0xe9, b'z'], 1);
    assert_eq!(get_string(&mut state, 3), Ok(String::from("a\u{e9}z")));
    assert_eq!(state.offset, 4);
    assert_eq!(get_string(&mut state, 0), Ok(String::new()));
    assert_eq!(get_string(&mut state, 1), Err(ParseError::Truncated { offset: 4 }));
}

#[test]
fn sized_quantity_keeps_the_low_32_bits() {
    let mut state = ParseState::new(vec![0xff, 0x51, 0x03, 0x07, 0xa1, 0x20]);
    assert_eq!(get_sized_quantity(&mut state), Ok(500_000));
    assert_eq!(state.offset, 6);
    let mut state = ParseState::new(vec![0xff, 0x51, 0x05, 0xaa, 0x01, 0x02, 0x03, 0x04]);
    assert_eq!(get_sized_quantity(&mut state), Ok(0x0102_0304));
    assert_eq!(state.offset, 8);
    let mut state = ParseState::new(vec![0xff, 0x51, 0x03, 0x07, 0xa1]);
    assert_eq!(get_sized_quantity(&mut state), Err(ParseError::Truncated { offset: 3 }));
    assert_eq!(state.offset, 0);
}

#[test]
fn header_parse_ticks_per_quarter_note() {
    let mut data = b"MThd".to_vec();
    data.extend_from_slice(&[0, 0, 0, 6]);
    data.extend_from_slice(&[0, 1]);
    data.extend_from_slice(&[0, 2]);
    data.extend_from_slice(&[0x01, 0x80]);
    data.extend(track_chunk(&[0x00, 0xff, 0x2f, 0x00]));
    data.extend(track_chunk(&[0x00, 0xff, 0x2f, 0x00]));
    let midi = parse_midi(data);
    assert!(midi.ok());
    assert_eq!(midi.format, 1);
    assert_eq!(midi.ntrks, 2);
    assert_eq!(midi.ticks_per_quarter_note, 0x0180);
    assert_eq!(midi.ticks_per_quarter_note, 384);
    assert_eq!(midi.tracks.len(), 2);
}

#[test]
fn header_fields_stand_without_tracks() {
    let midi = parse_midi(header(1, 2, [0x01, 0x80]));
    assert_eq!(midi.ticks_per_quarter_note, 384);
    assert_eq!(midi.error, Some(ParseError::Truncated { offset: 14 }));
    assert!(!midi.ok());
    assert_eq!(midi.tracks.len(), 0);
}

#[test]
fn header_with_smpte_division() {
    let mut data = header(0, 1, [0xe7, 40]);
    data.extend(track_chunk(&[0x00, 0xff, 0x2f, 0x00]));
    let midi = parse_midi(data);
    assert!(midi.ok());
    assert_eq!(midi.negative_smpte_format, 0x67);
    assert_eq!(midi.ticks_per_frame, 40);
    assert_eq!(midi.ticks_per_quarter_note, 25 * 40);
}

#[test]
fn bad_header_tag_is_fatal() {
    let mut data = header(0, 1, [0, 96]);
    data[3] = b'x';
    data.extend(track_chunk(&[0x00, 0xff, 0x2f, 0x00]));
    let midi = parse_midi(data);
    assert_eq!(midi.error, Some(ParseError::BadHeaderTag));
    assert_eq!(midi.format, 0xffff);
    assert_eq!(midi.tracks.len(), 0);
}

#[test]
fn bad_header_length_is_fatal() {
    let mut data = header(0, 1, [0, 96]);
    data[7] = 7;
    data.extend(track_chunk(&[0x00, 0xff, 0x2f, 0x00]));
    let midi = parse_midi(data);
    assert_eq!(midi.error, Some(ParseError::BadHeaderLength { length: 7 }));
    assert_eq!(midi.tracks.len(), 0);
    assert_eq!(midi.ticks_per_quarter_note, 96);
}

#[test]
fn unsupported_format_is_fatal() {
    let mut data = header(3, 1, [0, 96]);
    data.extend(track_chunk(&[0x00, 0xff, 0x2f, 0x00]));
    let midi = parse_midi(data);
    assert_eq!(midi.error, Some(ParseError::UnsupportedFormat { format: 3 }));
    assert_eq!(midi.tracks.len(), 0);
}

#[test]
fn short_buffers_are_truncated() {
    assert_eq!(parse_midi(Vec::new()).error, Some(ParseError::Truncated { offset: 0 }));
    assert_eq!(parse_midi(b"MThd".to_vec()).error, Some(ParseError::Truncated { offset: 4 }));
    assert_eq!(
        parse_midi(b"MThd\0\0\0\x06\0\x01".to_vec()).error,
        Some(ParseError::Truncated { offset: 8 })
    );
}

#[test]
fn bad_track_tag_is_fatal_and_keeps_earlier_tracks() {
    let mut data = header(1, 2, [0, 96]);
    data.extend(track_chunk(&[0x00, 0xff, 0x2f, 0x00]));
    let mut second = track_chunk(&[0x00, 0xff, 0x2f, 0x00]);
    second[3] = b'K';
    data.extend(second);
    let midi = parse_midi(data);
    assert_eq!(midi.error, Some(ParseError::BadTrackTag { offset: 14 + 12 + 4 }));
    assert_eq!(midi.tracks.len(), 1);
}

#[test]
fn format_0_reads_one_track_whatever_the_count() {
    let mut data = header(0, 5, [0, 96]);
    data.extend(track_chunk(&[0x00, 0xff, 0x2f, 0x00]));
    let midi = parse_midi(data);
    assert!(midi.ok());
    assert_eq!(midi.ntrks, 5);
    assert_eq!(midi.tracks.len(), 1);
}

#[test]
fn running_status_reuses_the_previous_status() {
    let body = [0x00, 0x90, 60, 100, 0x10, 62, 90, 0x00, 0xff, 0x2f, 0x00];
    let mut data = header(0, 1, [0, 96]);
    data.extend(track_chunk(&body));
    let midi = parse_midi(data);
    assert!(midi.ok());
    let events = &midi.tracks[0].track_events;
    assert_eq!(events.len(), 3);
    assert_eq!(
        events[0].event,
        Event::MidiEvent(MidiEvent::NoteOn(NoteOn { channel: 0, key: 60, velocity: 100 }))
    );
    assert_eq!(events[1].delta_time, 0x10);
    assert_eq!(
        events[1].event,
        Event::MidiEvent(MidiEvent::NoteOn(NoteOn { channel: 0, key: 62, velocity: 90 }))
    );
    assert!(!midi.tracks[0].desynchronized());
}

#[test]
fn running_status_does_not_cross_tracks() {
    let mut data = header(1, 2, [0, 96]);
    data.extend(track_chunk(&[0x00, 0x93, 60, 100, 0x00, 0xff, 0x2f, 0x00]));
    data.extend(track_chunk(&[0x00, 60, 0x00, 0xff, 0x2f, 0x00]));
    let midi = parse_midi(data);
    assert!(midi.ok());
    assert_eq!(
        midi.tracks[1].track_events[0].event,
        Event::MidiEvent(MidiEvent::Undef { status: 0xf0 })
    );
    assert!(!midi.tracks[0].desynchronized());
    assert!(midi.tracks[1].desynchronized());
    assert!(midi.desynchronized());
}

#[test]
fn channel_messages_decode() {
    let mut state = ParseState::new(vec![0x85, 1, 2, 0xb6, 7, 100, 0xc2, 9, 0xe1, 0x01, 0x02]);
    assert_eq!(
        get_midi_event(&mut state),
        Ok(MidiEvent::NoteOff(NoteOff { channel: 5, key: 1, velocity: 2 }))
    );
    assert_eq!(
        get_midi_event(&mut state),
        Ok(MidiEvent::ControlChange(ControlChange { channel: 6, number: 7, value: 100 }))
    );
    assert_eq!(
        get_midi_event(&mut state),
        Ok(MidiEvent::ProgramChange(ProgramChange { channel: 2, program: 9 }))
    );
    assert_eq!(
        get_midi_event(&mut state),
        Ok(MidiEvent::PitchWheel(PitchWheel { channel: 1, bend: (2 << 7) | 1 }))
    );
    assert_eq!(state.offset, 11);
    assert_eq!(state.last_status, 6);
    assert_eq!(state.last_channel, 1);
    assert_eq!(get_midi_event(&mut state), Err(ParseError::Truncated { offset: 11 }));
}

#[test]
fn uninterpreted_channel_messages_are_passed_over() {
    let mut state = ParseState::new(vec![0xa3, 60, 10, 0xd4, 5, 0x91, 60, 1]);
    assert_eq!(get_midi_event(&mut state), Ok(MidiEvent::Undef { status: 0xa3 }));
    assert_eq!(state.offset, 3);
    assert_eq!(get_midi_event(&mut state), Ok(MidiEvent::Undef { status: 0xd4 }));
    assert_eq!(state.offset, 5);
    assert_eq!(
        get_midi_event(&mut state),
        Ok(MidiEvent::NoteOn(NoteOn { channel: 1, key: 60, velocity: 1 }))
    );
}

#[test]
fn undetermined_status_stays_in_place() {
    let mut state = ParseState::new(vec![0xf3, 1, 2]);
    assert_eq!(get_midi_event(&mut state), Ok(MidiEvent::Undef { status: 0xf3 }));
    assert_eq!(state.offset, 0);
    assert_eq!(state.last_status, 7);
    assert_eq!(state.last_channel, 3);
}

#[test]
fn channel_message_truncated_leaves_the_state() {
    let mut state = ParseState::new(vec![0x90, 60]);
    assert_eq!(get_midi_event(&mut state), Err(ParseError::Truncated { offset: 1 }));
    assert_eq!(state.offset, 0);
    assert_eq!(state.last_status, 7);
}

#[test]
fn meta_events_decode() {
    let mut state = ParseState::new(vec![0xff, 0x00, 0x02, 0x12, 0x34]);
    match get_meta_event(&mut state) {
        Ok(MetaEvent::SequenceNumber(n)) => assert_eq!(n.number, 0x1234),
        other => panic!("{:?}", other),
    }
    assert_eq!(state.offset, 5);

    let mut state = ParseState::new(vec![0xff, 0x03, 0x03, b'a', b'b', b'c', 0x99]);
    match get_meta_event(&mut state) {
        Ok(MetaEvent::SequenceTrackName(t)) => assert_eq!(t.name, "abc"),
        other => panic!("{:?}", other),
    }
    assert_eq!(state.offset, 6);

    let mut state = ParseState::new(vec![0xff, 0x20, 0x01, 0x07]);
    match get_meta_event(&mut state) {
        Ok(MetaEvent::ChannelPrefix(c)) => assert_eq!(c.channel, 7),
        other => panic!("{:?}", other),
    }
    assert_eq!(state.offset, 4);

    let mut state = ParseState::new(vec![0xff, 0x21, 0x01, 0x02]);
    match get_meta_event(&mut state) {
        Ok(MetaEvent::Port(p)) => assert_eq!(p.port, 2),
        other => panic!("{:?}", other),
    }

    let mut state = ParseState::new(vec![0xff, 0x51, 0x03, 0x0f, 0x42, 0x40]);
    assert_eq!(get_meta_event(&mut state), Ok(MetaEvent::SetTempo(SetTempo { tttttt: 1_000_000 })));

    let mut state = ParseState::new(vec![0xff, 0x54, 0x05, 1, 2, 3, 4, 5]);
    assert_eq!(
        get_meta_event(&mut state),
        Ok(MetaEvent::SmpteOffset(SmpteOffset { hr: 1, mn: 2, se: 3, fr: 4, ff: 5 }))
    );
    assert_eq!(state.offset, 8);

    let mut state = ParseState::new(vec![0xff, 0x58, 0x04, 6, 3, 24, 8]);
    assert_eq!(
        get_meta_event(&mut state),
        Ok(MetaEvent::TimeSignature(TimeSignature { nn: 6, dd: 3, cc: 24, bb: 8 }))
    );
    assert_eq!(state.offset, 7);

    let mut state = ParseState::new(vec![0xff, 0x59, 0x02, 0xfe, 0x01]);
    assert_eq!(
        get_meta_event(&mut state),
        Ok(MetaEvent::KeySignature(KeySignature { sf: -2, mi: true }))
    );
    assert_eq!(state.offset, 5);

    let mut state = ParseState::new(vec![0xff, 0x7f, 0x02, 0xaa, 0xbb]);
    match get_meta_event(&mut state) {
        Ok(MetaEvent::SequencerEvent(e)) => assert_eq!(e.data, vec![0xaa, 0xbb]),
        other => panic!("{:?}", other),
    }
    assert_eq!(state.offset, 5);
}

#[test]
fn unknown_meta_event_is_passed_over() {
    let mut state = ParseState::new(vec![0xff, 0x4a, 0x02, 1, 2, 0x00]);
    assert_eq!(get_meta_event(&mut state), Ok(MetaEvent::Undef { code: 0x4a, length: 2 }));
    assert_eq!(state.offset, 5);
}

#[test]
fn meta_event_truncated_leaves_the_state() {
    let mut state = state_at(vec![0x00, 0xff, 0x03, 0x05, b'a'], 1);
    assert_eq!(get_meta_event(&mut state), Err(ParseError::Truncated { offset: 4 }));
    assert_eq!(state.offset, 1);
    let mut state = ParseState::new(vec![0xff, 0x58, 0x04, 6, 3]);
    assert_eq!(get_meta_event(&mut state), Err(ParseError::Truncated { offset: 0 }));
    let mut state = ParseState::new(vec![0xff]);
    assert_eq!(get_meta_event(&mut state), Err(ParseError::Truncated { offset: 0 }));
}

#[test]
fn end_of_track_may_declare_a_length() {
    let mut state = ParseState::new(vec![0xff, 0x2f, 0x02, 9, 9]);
    match get_meta_event(&mut state) {
        Ok(MetaEvent::EndOfTrack(_)) => {}
        other => panic!("{:?}", other),
    }
    assert_eq!(state.offset, 5);
}

#[test]
fn sysex_is_skipped_by_its_length() {
    let mut state = ParseState::new(vec![0x05, 0xf0, 0x03, 1, 2, 0xf7, 0x00, 0x90, 60, 1]);
    let te = get_track_event(&mut state).unwrap();
    assert_eq!(te.delta_time, 5);
    assert_eq!(te.event, Event::SysexEvent(SysexEvent {}));
    assert_eq!(state.offset, 6);
    let te = get_track_event(&mut state).unwrap();
    assert_eq!(
        te.event,
        Event::MidiEvent(MidiEvent::NoteOn(NoteOn { channel: 0, key: 60, velocity: 1 }))
    );
}

#[test]
fn track_event_truncated_leaves_the_state() {
    let mut state = ParseState::new(vec![0x05]);
    assert_eq!(get_track_event(&mut state), Err(ParseError::Truncated { offset: 1 }));
    assert_eq!(state.offset, 0);
    let mut state = ParseState::new(vec![0x05, 0x90, 60]);
    assert_eq!(get_track_event(&mut state), Err(ParseError::Truncated { offset: 2 }));
    assert_eq!(state.offset, 0);
    assert_eq!(state.last_status, 7);
}

#[test]
fn track_without_end_of_track_is_accepted() {
    let mut data = header(1, 2, [0, 96]);
    data.extend(track_chunk(&[0x00, 0x90, 60, 100]));
    data.extend(track_chunk(&[0x00, 0xff, 0x2f, 0x00]));
    let midi = parse_midi(data);
    assert!(midi.ok());
    assert_eq!(midi.tracks[0].track_events.len(), 1);
    assert_eq!(midi.tracks[1].track_events.len(), 1);
}

#[test]
fn scan_stops_at_end_of_track_and_goes_on_at_the_declared_end() {
    let mut data = header(1, 2, [0, 96]);
    data.extend(track_chunk(&[0x00, 0xff, 0x2f, 0x00, 0x00, 0x90, 60, 100]));
    data.extend(track_chunk(&[0x00, 0xc1, 5, 0x00, 0xff, 0x2f, 0x00]));
    let midi = parse_midi(data);
    assert!(midi.ok());
    assert_eq!(midi.tracks[0].track_events.len(), 1);
    assert_eq!(midi.tracks[1].track_events.len(), 2);
}

#[test]
fn track_that_ends_in_an_event_is_truncated() {
    let mut data = header(0, 1, [0, 96]);
    let mut chunk = track_chunk(&[0x00, 0x90, 60, 100, 0x00, 0x80, 60]);
    chunk[7] = 9;
    data.extend(chunk);
    let midi = parse_midi(data);
    assert_eq!(midi.error, Some(ParseError::Truncated { offset: 14 + 8 + 6 }));
    assert_eq!(midi.tracks.len(), 0);
}

#[test]
fn set_error_keeps_the_first_error() {
    let mut midi: Midi = parse_midi(Vec::new());
    assert_eq!(midi.error, Some(ParseError::Truncated { offset: 0 }));
    midi.set_error(ParseError::BadHeaderTag);
    assert_eq!(midi.error, Some(ParseError::Truncated { offset: 0 }));
    let mut data = header(0, 1, [0, 96]);
    data.extend(track_chunk(&[0x00, 0xff, 0x2f, 0x00]));
    let mut midi = parse_midi(data);
    assert!(midi.ok());
    midi.set_error(ParseError::BadHeaderTag);
    assert!(!midi.ok());
    assert_eq!(midi.error, Some(ParseError::BadHeaderTag));
}

#[test]
fn scale_names() {
    assert_eq!(KeySignature { sf: 0, mi: false }.scale_name(), "C major");
    assert_eq!(KeySignature { sf: 0, mi: true }.scale_name(), "A minor");
    assert_eq!(KeySignature { sf: 2, mi: false }.scale_name(), "D major");
    assert_eq!(KeySignature { sf: -1, mi: false }.scale_name(), "F major");
    assert_eq!(KeySignature { sf: -1, mi: true }.scale_name(), "D minor");
    assert_eq!(KeySignature { sf: 7, mi: false }.scale_name(), "C major");
    assert_eq!(KeySignature { sf: -7, mi: false }.scale_name(), "C major");
}
