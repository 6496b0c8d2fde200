use sequencer::notes::{gcd, lcm};
use sequencer::{
    sequence_pieces, BarNode, BarTypeNode, DebugBarInfo, ErrorType, Midi, Note, NoteNode,
    ParseTree, Piece, PieceNode, PlayNode, SequencingError, SourceLoc, StaveNode, Voice, VoiceNode,
};

fn loc(line: usize, column: usize) -> SourceLoc {
    SourceLoc { line, column }
}

fn midi(number: u8) -> Midi {
    Midi::new(number).unwrap()
}

fn n(length: u8, number: u8) -> NoteNode {
    NoteNode::Note { length, midi: midi(number) }
}

fn bar(line: usize, notes: Vec<NoteNode>) -> BarTypeNode {
    let note_locs = (0..notes.len()).map(|i| loc(line, i)).collect();
    BarTypeNode::Bar(BarNode { notes, note_locs })
}

fn stave(line: usize, bars: Vec<BarTypeNode>) -> StaveNode {
    let bar_locs = (0..bars.len()).map(|i| loc(line, 100 + i)).collect();
    StaveNode { prefix: String::new(), bars, bar_locs }
}

fn play(voice: Option<&str>, line: usize, staves: Vec<StaveNode>) -> PlayNode {
    PlayNode { voice: voice.map(|v| v.to_string()), staves, error_loc: Some(loc(line, 0)) }
}

fn voice(name: &str) -> VoiceNode {
    VoiceNode { name: name.to_string(), ..Default::default() }
}

fn piece(voices: Vec<VoiceNode>, plays: Vec<PlayNode>) -> PieceNode {
    PieceNode { voices, plays, ..Default::default() }
}

fn note(number: u8, length: u32, position: u32) -> Note {
    Note { midi: midi(number), length, position }
}

fn run(p: PieceNode) -> Result<Piece, SequencingError> {
    sequence_pieces(&ParseTree { pieces: vec![p] }).map(|mut ps| ps.remove(0))
}

fn simple_stave(line: usize) -> StaveNode {
    stave(line, vec![bar(line, vec![n(1, 60)])])
}

#[test]
fn no_pieces_give_no_output() {
    assert_eq!(sequence_pieces(&ParseTree { pieces: vec![] }), Ok(vec![]));
}

#[test]
fn unplayed_voice_has_unit_grid_and_no_notes() {
    let p = piece(
        vec![voice("Played"), voice("Idle")],
        vec![play(Some("Played"), 1, vec![stave(1, vec![bar(1, vec![n(1, 60), n(2, 62)])])])],
    );
    let out = run(p).unwrap();
    assert_eq!(out.voices[0].divisions_per_bar, 3);
    assert_eq!(out.voices[1], Voice { name: "Idle".to_string(), ..Default::default() });
}

#[test]
fn voiceless_play_block_fails() {
    let p = piece(vec![voice("A")], vec![play(None, 4, vec![simple_stave(4)])]);
    assert_eq!(run(p), Err(SequencingError { loc: loc(4, 0), error: ErrorType::VoicelessPlayBlock }));
}

#[test]
fn first_offending_play_block_is_reported() {
    let p = piece(
        vec![voice("A")],
        vec![
            play(Some("A"), 1, vec![simple_stave(1)]),
            play(None, 2, vec![simple_stave(2)]),
            play(Some("B"), 3, vec![simple_stave(3)]),
        ],
    );
    assert_eq!(run(p), Err(SequencingError { loc: loc(2, 0), error: ErrorType::VoicelessPlayBlock }));
}

#[test]
fn validation_precedes_timing_errors() {
    let p = piece(
        vec![voice("A")],
        vec![
            play(Some("A"), 1, vec![stave(1, vec![BarTypeNode::RepeatBar])]),
            play(Some("Z"), 2, vec![simple_stave(2)]),
        ],
    );
    assert_eq!(
        run(p),
        Err(SequencingError {
            loc: loc(2, 0),
            error: ErrorType::UndeclaredVoice { voice_name: "Z".to_string() },
        })
    );
}

#[test]
fn later_piece_error_discards_everything() {
    let good = piece(vec![voice("A")], vec![play(Some("A"), 1, vec![simple_stave(1)])]);
    let bad = piece(vec![], vec![play(Some("A"), 9, vec![simple_stave(9)])]);
    let r = sequence_pieces(&ParseTree { pieces: vec![good, bad] });
    assert_eq!(
        r,
        Err(SequencingError {
            loc: loc(9, 0),
            error: ErrorType::UndeclaredVoice { voice_name: "A".to_string() },
        })
    );
}

#[test]
fn events_sorted_across_play_blocks() {
    let p = piece(
        vec![voice("A")],
        vec![
            play(Some("A"), 1, vec![stave(1, vec![bar(1, vec![n(1, 60), n(1, 62)]), bar(1, vec![n(1, 64)])])]),
            play(Some("A"), 2, vec![stave(2, vec![bar(2, vec![n(1, 70)])])]),
        ],
    );
    let out = run(p).unwrap();
    let v = &out.voices[0];
    assert_eq!(v.divisions_per_bar, 2);
    assert_eq!(v.notes, vec![note(60, 1, 0), note(70, 2, 0), note(62, 1, 1), note(64, 2, 2)]);
    for w in v.notes.windows(2) {
        assert!(w[0].position <= w[1].position);
    }
}

#[test]
fn tie_scales_with_bar() {
    // grid lcm(2, 3) = 6: in the first stave a tie of 1 lasts 3 units.
    let p = piece(
        vec![voice("A")],
        vec![play(
            Some("A"),
            1,
            vec![
                stave(1, vec![bar(1, vec![n(1, 60), NoteNode::Extension { length: 1 }])]),
                stave(2, vec![bar(2, vec![n(1, 64), n(1, 65), n(1, 67)])]),
            ],
        )],
    );
    let v = run(p).unwrap().voices.remove(0);
    assert_eq!(v.divisions_per_bar, 6);
    assert_eq!(v.notes[0], note(60, 6, 0));
}

#[test]
fn tie_after_rest_is_absorbed() {
    let p = piece(
        vec![voice("A")],
        vec![play(
            Some("A"),
            1,
            vec![stave(
                1,
                vec![bar(
                    1,
                    vec![n(1, 60), NoteNode::Rest { length: 1 }, NoteNode::Extension { length: 2 }, n(1, 62)],
                )],
            )],
        )],
    );
    let v = run(p).unwrap().voices.remove(0);
    assert_eq!(v.notes, vec![note(60, 1, 0), note(62, 1, 4)]);
}

#[test]
fn repeat_does_not_tie_into_previous_bar() {
    let p = piece(
        vec![voice("A")],
        vec![play(
            Some("A"),
            1,
            vec![stave(
                1,
                vec![bar(1, vec![NoteNode::Extension { length: 1 }, n(1, 60)]), BarTypeNode::RepeatBar],
            )],
        )],
    );
    let v = run(p).unwrap().voices.remove(0);
    assert_eq!(v.notes, vec![note(60, 1, 1), note(60, 1, 3)]);
}

#[test]
fn repeat_skips_markers_and_shifts() {
    let p = piece(
        vec![voice("A")],
        vec![play(
            Some("A"),
            1,
            vec![stave(
                1,
                vec![
                    bar(1, vec![n(1, 57)]),
                    bar(2, vec![n(1, 60), n(1, 62)]),
                    BarTypeNode::RepeatBar,
                    BarTypeNode::RepeatBar,
                ],
            )],
        )],
    );
    let v = run(p).unwrap().voices.remove(0);
    assert_eq!(v.divisions_per_bar, 2);
    assert_eq!(
        v.notes,
        vec![note(57, 2, 0), note(60, 1, 2), note(62, 1, 3), note(60, 1, 4), note(62, 1, 5), note(60, 1, 6), note(62, 1, 7)]
    );
    let sources: Vec<u32> = v.debug_bar_info.iter().map(|d| d.divisions_in_source).collect();
    assert_eq!(sources, vec![1, 2, 2, 2]);
    assert_eq!(v.debug_bar_info[3], DebugBarInfo { loc: loc(2, 0), divisions_in_source: 2 });
}

#[test]
fn repeat_after_only_markers_fails_at_marker() {
    let p = piece(
        vec![voice("A")],
        vec![play(Some("A"), 1, vec![stave(1, vec![BarTypeNode::RepeatBar, BarTypeNode::RepeatBar])])],
    );
    assert_eq!(run(p), Err(SequencingError { loc: loc(1, 100), error: ErrorType::NothingToRepeat }));
}

#[test]
fn transpose_below_zero_fails() {
    let mut v = voice("A");
    v.transpose = Some(-13);
    let p = piece(vec![v], vec![play(Some("A"), 1, vec![stave(1, vec![bar(1, vec![n(1, 20), n(1, 12)])])])]);
    assert_eq!(run(p), Err(SequencingError { loc: loc(1, 1), error: ErrorType::InvalidNote { octave_offset: -1 } }));
}

#[test]
fn largest_downward_transpose_fails() {
    let mut v = voice("A");
    v.transpose = Some(-128);
    let p = piece(vec![v], vec![play(Some("A"), 1, vec![stave(1, vec![bar(1, vec![n(1, 127), n(1, 60)])])])]);
    assert_eq!(run(p), Err(SequencingError { loc: loc(1, 0), error: ErrorType::InvalidNote { octave_offset: -10 } }));
}

#[test]
fn transposed_edges() {
    assert_eq!(midi(120).transposed(7), Some(midi(127)));
    assert_eq!(midi(120).transposed(8), None);
    assert_eq!(midi(5).transposed(-5), Some(midi(0)));
    assert_eq!(midi(5).transposed(-6), None);
    assert_eq!(Midi::new(128), None);
}

#[test]
fn voice_attributes_resolved() {
    let mut v = voice("A");
    v.transpose = Some(2);
    v.volume = Some(64);
    v.channel = Some(3);
    v.program = Some(7);
    let p = piece(vec![v], vec![play(Some("A"), 1, vec![simple_stave(1)])]);
    let out = run(p).unwrap().voices.remove(0);
    assert_eq!((out.channel, out.program, out.transpose, out.volume), (3, 7, 2, Some(64)));
    assert_eq!(out.notes, vec![note(62, 1, 0)]);
}

#[test]
fn spec_example_two_notes() {
    let p = piece(
        vec![voice("V")],
        vec![play(Some("V"), 1, vec![stave(1, vec![bar(1, vec![n(1, 60), n(1, 67)])])])],
    );
    let v = run(p).unwrap().voices.remove(0);
    // one bar of two notes: the grid is lcm(1, 2)
    assert_eq!(v.divisions_per_bar, 2);
    assert_eq!(v.notes, vec![note(60, 1, 0), note(67, 1, 1)]);
}

#[test]
fn lcm_and_gcd_values() {
    assert_eq!(gcd(12, 18), 6);
    assert_eq!(gcd(7, 0), 7);
    assert_eq!(lcm(4, 6), 12);
    assert_eq!(lcm(1, 9), 9);
    assert_eq!(lcm(3, 2), 6);
}

#[test]
fn note_lengths() {
    assert_eq!(NoteNode::Rest { length: 3 }.length(), 3);
    assert_eq!(NoteNode::Extension { length: 255 }.length(), 255);
    assert_eq!(n(9, 60).length(), 9);
}
