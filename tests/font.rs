use asteroids::font::{Command, Data, Step};

#[test]
fn glyph_with_move_line_and_close() {
    let commands = [Command::M(2, 0), Command::L(30, 0), Command::L(30, 48), Command::Z];
    let polylines = Data(&commands).to_polylines();
    assert_eq!(
        polylines,
        vec![vec![Step::To(2, 0), Step::To(30, 0), Step::To(30, 48), Step::To(2, 0)]]
    );
}

#[test]
fn glyph_horizontal_vertical_and_curve() {
    let commands = [
        Command::M(5, 0),
        Command::H(27),
        Command::V(20),
        Command::C(24, 20, 30, 26, 30, 34),
        Command::H(3),
    ];
    let polylines = Data(&commands).to_polylines();
    assert_eq!(
        polylines,
        vec![vec![
            Step::To(5, 0),
            Step::To(27, 0),
            Step::To(27, 20),
            Step::Curve { from: (27, 20), c1: (24, 20), c2: (30, 26), to: (30, 34) },
            Step::To(3, 34),
        ]]
    );
}

#[test]
fn glyph_moves_split_polylines_and_drop_single_points() {
    // the letter A, with a stray move at the end
    let commands = [
        Command::M(0, 48),
        Command::L(16, 0),
        Command::L(32, 48),
        Command::M(6, 30),
        Command::H(26),
        Command::M(1, 1),
    ];
    let polylines = Data(&commands).to_polylines();
    assert_eq!(
        polylines,
        vec![
            vec![Step::To(0, 48), Step::To(16, 0), Step::To(32, 48)],
            vec![Step::To(6, 30), Step::To(26, 30)],
        ]
    );
}

#[test]
fn glyph_without_leading_move_is_empty() {
    let none: Vec<Vec<Step>> = vec![];
    assert_eq!(Data(&[]).to_polylines(), none);
    assert_eq!(
        Data(&[Command::L(1, 1), Command::M(2, 2), Command::L(3, 3)]).to_polylines(),
        none
    );
}
