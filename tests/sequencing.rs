use sequencer::{
    sequence_pieces, BarNode, BarTypeNode, ErrorType, Midi, Note, NoteNode, ParseTree, Piece,
    PieceNode, PlayNode, SequencingError, SourceLoc, StaveNode, Voice, VoiceNode,
};

fn loc(line: usize, column: usize) -> SourceLoc {
    SourceLoc { line, column }
}

fn midi(number: u8) -> Midi {
    Midi::new(number).unwrap()
}

fn n(length: u8, number: u8) -> NoteNode {
    NoteNode::Note { length, midi: midi(number) }
}

fn rest(length: u8) -> NoteNode {
    NoteNode::Rest { length }
}

fn tie(length: u8) -> NoteNode {
    NoteNode::Extension { length }
}

fn bar(line: usize, notes: Vec<NoteNode>) -> BarTypeNode {
    let note_locs = (0..notes.len()).map(|i| loc(line, i)).collect();
    BarTypeNode::Bar(BarNode { notes, note_locs })
}

fn stave(line: usize, bars: Vec<BarTypeNode>) -> StaveNode {
    let bar_locs = (0..bars.len()).map(|i| loc(line, 100 + i)).collect();
    StaveNode { prefix: ":|".to_string(), bars, bar_locs }
}

fn play(voice: Option<&str>, line: usize, staves: Vec<StaveNode>) -> PlayNode {
    PlayNode { voice: voice.map(|v| v.to_string()), staves, error_loc: Some(loc(line, 0)) }
}

fn voice(name: &str) -> VoiceNode {
    VoiceNode { name: name.to_string(), ..Default::default() }
}

fn piece(voices: Vec<VoiceNode>, plays: Vec<PlayNode>) -> PieceNode {
    PieceNode { voices, plays, ..Default::default() }
}

fn note(number: u8, length: u32, position: u32) -> Note {
    Note { midi: midi(number), length, position }
}

/// A single voice `name` playing one play block of the given staves.
fn one_voice(name: &str, transpose: Option<i8>, staves: Vec<StaveNode>) -> PieceNode {
    let mut v = voice(name);
    v.transpose = transpose;
    piece(vec![v], vec![play(Some(name), 1, staves)])
}

fn sequence_one(source: &str, p: PieceNode) -> Result<Piece, SequencingError> {
    let tree = ParseTree { pieces: vec![p] };
    match sequence_pieces(&tree) {
        Ok(mut pieces) => {
            assert_eq!(pieces.len(), 1, "{}", source);
            Ok(pieces.remove(0))
        },
        Err(e) => Err(e),
    }
}

fn sequence_test(source: &str, p: PieceNode, expected: Piece) {
    let piece = sequence_one(source, p).unwrap();
    assert_eq!(piece, expected, "{}", source);
}

fn sequence_test_fail(source: &str, p: PieceNode) -> SequencingError {
    match sequence_one(source, p) {
        Ok(_) => panic!("expected an error for {}", source),
        Err(e) => e,
    }
}

fn voice_test(source: &str, p: PieceNode, expected_notes: Vec<Note>) -> Voice {
    let mut piece = sequence_one(source, p).unwrap();
    let v = piece.voices.remove(0);
    assert_eq!(v.notes, expected_notes, "{}", source);
    v
}

#[test]
fn sequence_empty_piece() {
    sequence_test("", PieceNode::default(), Piece::default());
}

#[test]
fn piece_with_attributes() {
    let p = PieceNode {
        title: Some("One".to_string()),
        composer: Some("Two".to_string()),
        tempo: Some(3),
        beats: Some(4),
        ..Default::default()
    };
    sequence_test(
        "piece { title: One, composer: Two, tempo: 3, beats: 4 }",
        p,
        Piece {
            title: Some("One".to_string()),
            composer: Some("Two".to_string()),
            tempo: 3,
            beats: 4,
            ..Default::default()
        },
    );
}

#[test]
fn piece_with_empty_voice() {
    sequence_test(
        "voice Empty { }",
        piece(vec![voice("Empty")], vec![]),
        Piece {
            voices: vec![Voice { name: "Empty".to_string(), ..Default::default() }],
            ..Default::default()
        },
    );
}

#[test]
fn voice_with_mismatched_play() {
    let p = piece(
        vec![voice("OneNote")],
        vec![play(Some("Different"), 1, vec![stave(1, vec![bar(1, vec![n(1, 60)])])])],
    );
    let e = sequence_test_fail("voice OneNote { } play Different { :| C }", p);
    assert_eq!(
        e,
        SequencingError {
            loc: loc(1, 0),
            error: ErrorType::UndeclaredVoice { voice_name: "Different".to_string() },
        }
    );
}

#[test]
fn voice_with_single_note() {
    voice_test(
        "voice OneNote { } play OneNote { :| C }",
        one_voice("OneNote", None, vec![stave(1, vec![bar(1, vec![n(1, 60)])])]),
        vec![note(60, 1, 0)],
    );
}

#[test]
fn voice_with_two_notes() {
    let v = voice_test(
        "voice TwoNote { } play TwoNote { :| C G }",
        one_voice("TwoNote", None, vec![stave(1, vec![bar(1, vec![n(1, 60), n(1, 67)])])]),
        vec![note(60, 1, 0), note(67, 1, 1)],
    );
    assert_eq!(v.divisions_per_bar, 2);
}

#[test]
fn voice_with_two_staves() {
    voice_test(
        "voice Diad { } play Diad { :| C ; :| G }",
        one_voice(
            "Diad",
            None,
            vec![stave(1, vec![bar(1, vec![n(1, 60)])]), stave(2, vec![bar(2, vec![n(1, 67)])])],
        ),
        vec![note(60, 1, 0), note(67, 1, 0)],
    );
}

#[test]
fn threes_against_twos() {
    let v = voice_test(
        "voice Diad { } play Diad { :| C E G ; :| c g }",
        one_voice(
            "Diad",
            None,
            vec![
                stave(1, vec![bar(1, vec![n(1, 60), n(1, 64), n(1, 67)])]),
                stave(2, vec![bar(2, vec![n(1, 72), n(1, 79)])]),
            ],
        ),
        vec![note(60, 2, 0), note(72, 3, 0), note(64, 2, 2), note(79, 3, 3), note(67, 2, 4)],
    );
    assert_eq!(v.divisions_per_bar, 6);
    for x in &v.notes {
        let on_threes = x.midi.number == 60 || x.midi.number == 64 || x.midi.number == 67;
        let step = if on_threes { 2 } else { 3 };
        assert_eq!(x.position % step, 0);
    }
}

#[test]
fn fail_when_notes_moved_out_of_range() {
    // g#''' is MIDI 116; an octave up it leaves the range.
    let p = one_voice("V", Some(12), vec![stave(1, vec![bar(1, vec![n(1, 116)])])]);
    let e = sequence_test_fail("voice V { octave: 1} play V { :| g#'''}", p);
    assert_eq!(e, SequencingError { loc: loc(1, 0), error: ErrorType::InvalidNote { octave_offset: 1 } });
}

#[test]
fn voice_with_note_lengths() {
    voice_test(
        "voice A { } play A { :| C4 -2 G2 }",
        one_voice("A", None, vec![stave(1, vec![bar(1, vec![n(4, 60), rest(2), n(2, 67)])])]),
        vec![note(60, 4, 0), note(67, 2, 6)],
    );
}

#[test]
fn voice_with_dots() {
    voice_test(
        "voice A { } play A { :| A..B C... .8 }",
        one_voice(
            "A",
            None,
            vec![stave(
                1,
                vec![bar(
                    1,
                    vec![n(1, 57), tie(1), tie(1), n(1, 59), n(1, 60), tie(1), tie(1), tie(1), tie(8)],
                )],
            )],
        ),
        vec![note(57, 3, 0), note(59, 1, 3), note(60, 12, 4)],
    );
}

#[test]
fn voice_with_leading_dots() {
    voice_test(
        "voice A { } play A { :| ...C E... G... -... }",
        one_voice(
            "A",
            None,
            vec![stave(
                1,
                vec![bar(
                    1,
                    vec![
                        tie(1),
                        tie(1),
                        tie(1),
                        n(1, 60),
                        n(1, 64),
                        tie(1),
                        tie(1),
                        tie(1),
                        n(1, 67),
                        tie(1),
                        tie(1),
                        tie(1),
                        rest(1),
                        tie(1),
                        tie(1),
                        tie(1),
                    ],
                )],
            )],
        ),
        vec![note(60, 1, 3), note(64, 4, 4), note(67, 4, 8)],
    );
}

#[test]
fn dots_do_not_carry_across_staves() {
    voice_test(
        "voice A { } play A { :| CEGc | ; :| ...g }",
        one_voice(
            "A",
            None,
            vec![
                stave(1, vec![bar(1, vec![n(1, 60), n(1, 64), n(1, 67), n(1, 72)])]),
                stave(2, vec![bar(2, vec![tie(1), tie(1), tie(1), n(1, 79)])]),
            ],
        ),
        vec![note(60, 1, 0), note(64, 1, 1), note(67, 1, 2), note(72, 1, 3), note(79, 1, 3)],
    );
}

#[test]
fn notes_can_be_tied_across_bars() {
    voice_test(
        "voice A {} play A { :| CEG. | ..EC }",
        one_voice(
            "A",
            None,
            vec![stave(
                1,
                vec![
                    bar(1, vec![n(1, 60), n(1, 64), n(1, 67), tie(1)]),
                    bar(2, vec![tie(1), tie(1), n(1, 64), n(1, 60)]),
                ],
            )],
        ),
        vec![note(60, 1, 0), note(64, 1, 1), note(67, 4, 2), note(64, 1, 6), note(60, 1, 7)],
    );
}

#[test]
fn repeat_bars() {
    voice_test(
        "voice A {} play A { :| A C | % | }",
        one_voice(
            "A",
            None,
            vec![stave(1, vec![bar(1, vec![n(1, 57), n(1, 60)]), BarTypeNode::RepeatBar])],
        ),
        vec![note(57, 1, 0), note(60, 1, 1), note(57, 1, 2), note(60, 1, 3)],
    );
}

#[test]
fn repeat_bars_twice() {
    voice_test(
        "voice A {} play A { :| A C | % | % | }",
        one_voice(
            "A",
            None,
            vec![stave(
                1,
                vec![bar(1, vec![n(1, 57), n(1, 60)]), BarTypeNode::RepeatBar, BarTypeNode::RepeatBar],
            )],
        ),
        vec![
            note(57, 1, 0),
            note(60, 1, 1),
            note(57, 1, 2),
            note(60, 1, 3),
            note(57, 1, 4),
            note(60, 1, 5),
        ],
    );
}

#[test]
fn fail_first_bar_repeat() {
    let p = one_voice("A", None, vec![stave(1, vec![BarTypeNode::RepeatBar])]);
    let e = sequence_test_fail("voice A {} play A { :| % | }", p);
    assert_eq!(e, SequencingError { loc: loc(1, 100), error: ErrorType::NothingToRepeat });
}
