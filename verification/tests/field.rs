use four_win_three_lose::field::{Field, FieldErrors};
use four_win_three_lose::{GameResult, FIELD_X, FIELD_Y};

#[test]
fn better_eq_for_player() {
    let w1 = GameResult::PlayerOneWins;
    let w2 = GameResult::PlayerTwoWins;
    let d = GameResult::Draw;

    assert_eq!(true, w1.better_eq_for_player(&w1, false));
    assert_eq!(true, w1.better_eq_for_player(&w2, false));
    assert_eq!(true, w1.better_eq_for_player(&d, false));
    assert_eq!(true, w1.better_eq_for_player(&w1, true));
    assert_eq!(false, w1.better_eq_for_player(&w2, true));
    assert_eq!(false, w1.better_eq_for_player(&d, true));

    assert_eq!(false, d.better_eq_for_player(&w1, false));
    assert_eq!(true, d.better_eq_for_player(&w2, false));
    assert_eq!(true, d.better_eq_for_player(&d, false));
    assert_eq!(true, d.better_eq_for_player(&w1, true));
    assert_eq!(false, d.better_eq_for_player(&w2, true));
    assert_eq!(true, d.better_eq_for_player(&d, true));

    assert_eq!(false, w2.better_eq_for_player(&w1, false));
    assert_eq!(true, w2.better_eq_for_player(&w2, false));
    assert_eq!(false, w2.better_eq_for_player(&d, false));
    assert_eq!(true, w2.better_eq_for_player(&w1, true));
    assert_eq!(true, w2.better_eq_for_player(&w2, true));
    assert_eq!(true, w2.better_eq_for_player(&d, true));
}

fn create_sample_field_empty() -> Field {
    Field::from([
        [None, None, None, None],
        [None, None, None, None],
        [None, None, None, None],
        [None, None, None, None],
    ])
}

#[test]
fn field_into() {
    let t = Some(true);
    let f = Some(false);
    let n: Option<bool> = None;

    let mut arr = [None; 16];
    let field: Field = arr.into();
    let empty_f = Field::from([[n, n, n, n], [n, n, n, n], [n, n, n, n], [n, n, n, n]]);
    assert_eq!(empty_f.field, field.field);

    arr[0] = Some(false);
    arr[4] = Some(true);
    arr[8] = Some(false);
    arr[12] = Some(true);
    let field: Field = arr.into();
    let should_be = Field::from([[f, n, n, n], [t, n, n, n], [f, n, n, n], [t, n, n, n]]);

    assert_eq!(should_be.field, field.field);

    arr[3] = Some(true);
    arr[7] = Some(true);
    arr[11] = Some(true);
    arr[15] = Some(true);
    let field: Field = arr.into();
    let should_be = Field::from([[f, n, n, t], [t, n, n, t], [f, n, n, t], [t, n, n, t]]);
    assert_eq!(should_be.field, field.field);
}

#[test]
fn set() {
    let t = Some(true);
    let f = Some(false);
    let n: Option<bool> = None;
    let sample_1 = Field::from([[f, n, n, n], [t, n, n, n], [f, n, n, n], [t, n, n, n]]);

    let mut field = create_sample_field_empty();
    assert_eq!(Ok(()), field.set(0, 0, false));
    assert_eq!(Ok(()), field.set(0, 1, true));
    assert_eq!(Ok(()), field.set(0, 2, false));
    assert_eq!(Ok(()), field.set(0, 3, true));
    assert_eq!(sample_1.field, field.field);

    assert_eq!(
        Err(FieldErrors::PositionNotInField(1, FIELD_Y)),
        field.set(1, FIELD_Y, true)
    );
    assert_eq!(
        Err(FieldErrors::PositionNotInField(FIELD_X, 1)),
        field.set(FIELD_X, 1, false)
    );
    assert_eq!(sample_1.field, field.field);

    assert_eq!(
        Err(FieldErrors::PositionAlreadySet(0, 3, true)),
        field.set(0, 3, true)
    );
    assert_eq!(
        Err(FieldErrors::PositionAlreadySet(0, 3, true)),
        field.set(0, 3, false)
    );
    assert_eq!(
        Err(FieldErrors::PositionAlreadySet(0, 0, false)),
        field.set(0, 0, false)
    );
    assert_eq!(
        Err(FieldErrors::PositionAlreadySet(0, 0, false)),
        field.set(0, 0, true)
    );
    assert_eq!(sample_1.field, field.field);
}

#[test]
fn test_set_pieces() {
    let t = Some(true);
    let f = Some(false);
    let n: Option<bool> = None;
    let sample_1 = Field::from([[f, n, n, t], [t, n, n, t], [f, n, n, t], [t, n, n, t]]);
    assert_eq!(sample_1.set_pieces(), 8_usize);
}

#[test]
fn force_set() {
    let t = Some(true);
    let f = Some(false);
    let n: Option<bool> = None;
    let sample_1 = Field::from([[f, n, n, n], [t, n, n, n], [f, n, n, n], [t, n, n, n]]);
    let mut field = sample_1.clone();

    assert_eq!(
        Err(FieldErrors::PositionNotInField(1, FIELD_Y)),
        field.set(1, FIELD_Y, true)
    );
    assert_eq!(
        Err(FieldErrors::PositionNotInField(FIELD_X, 1)),
        field.set(FIELD_X, 1, false)
    );
    assert_eq!(sample_1.field, field.field);

    assert_eq!(Ok(()), field.force_set(0, 0, None));
    assert_eq!(Ok(()), field.force_set(0, 1, None));
    assert_eq!(Ok(()), field.force_set(0, 2, None));
    assert_eq!(Ok(()), field.force_set(0, 3, None));
    assert_eq!(create_sample_field_empty().field, field.field);

    let x = [
        [Some(true), None, None, None],
        [None, None, None, None],
        [None, None, None, None],
        [None, None, None, None],
    ];
    assert_eq!(Ok(()), field.force_set(0, 0, Some(true)));
    assert_eq!(x, field.field);
    assert_eq!(Ok(()), field.force_set(0, 0, Some(true)));
    assert_eq!(x, field.field);
    let x = [
        [Some(false), None, None, None],
        [None, None, None, None],
        [None, None, None, None],
        [None, None, None, None],
    ];
    assert_eq!(Ok(()), field.force_set(0, 0, Some(false)));
    assert_eq!(x, field.field);
}

#[test]
fn winner() {
    let t = Some(true);
    let f = Some(false);
    let n: Option<bool> = None;
    let field = Field::from([[t, n, n, n], [n, n, n, n], [n, n, n, n], [n, n, n, n]]);
    assert_eq!(field.winner(), n);
    let field = Field::from([[t, n, t, t], [t, n, n, n], [t, n, t, n], [n, t, t, t]]);
    assert_eq!(field.winner(), n);
    let field = Field::from([[t, f, t, t], [t, t, t, n], [t, t, f, n], [f, n, n, t]]);
    assert_eq!(field.winner(), n);
    let field = Field::from([[t, n, n, n], [t, n, n, n], [t, n, n, n], [t, n, n, n]]);
    assert_eq!(field.winner(), t);
    let field = Field::from([[f, n, n, n], [f, n, n, n], [f, n, n, n], [f, n, n, n]]);
    assert_eq!(field.winner(), f);
    let field = Field::from([[t, t, t, t], [n, n, n, n], [n, n, n, n], [n, n, n, n]]);
    assert_eq!(field.winner(), t);
    let field = Field::from([[n, n, n, n], [n, n, n, n], [n, n, n, n], [t, t, t, t]]);
    assert_eq!(field.winner(), t);
    let field = Field::from([[t, n, n, n], [n, t, n, n], [n, n, t, n], [n, n, n, t]]);
    assert_eq!(field.winner(), t);
    let field = Field::from([[n, n, n, t], [n, n, t, n], [n, t, n, n], [t, n, n, n]]);
    assert_eq!(field.winner(), t);
}

#[test]
fn loser() {
    let t = Some(true);
    let f = Some(false);
    let n: Option<bool> = None;
    let field = Field::from([[n, n, n, n], [n, n, n, n], [n, n, n, n], [n, n, n, n]]);
    assert_eq!(field.loser(), None);
    let field = Field::from([[t, t, n, t], [t, n, t, t], [f, n, f, f], [f, f, t, f]]);
    assert_eq!(field.loser(), None);
    let field = Field::from([[t, n, n, t], [n, t, t, n], [n, n, n, n], [t, n, n, t]]);
    assert_eq!(field.loser(), None);

    let field = Field::from([[t, t, t, n], [n, n, n, n], [n, n, n, n], [n, n, n, n]]);
    assert_eq!(field.loser(), t);
    let field = Field::from([[n, t, t, t], [n, n, n, n], [n, n, n, n], [n, n, n, n]]);
    assert_eq!(field.loser(), t);
    let field = Field::from([[n, t, n, n], [n, t, n, n], [n, t, n, n], [n, n, n, n]]);
    assert_eq!(field.loser(), t);
    let field = Field::from([[n, n, n, n], [n, t, n, n], [n, t, n, n], [n, t, n, n]]);
    assert_eq!(field.loser(), t);
    let field = Field::from([[t, n, n, n], [n, t, n, n], [n, n, t, n], [n, n, n, n]]);
    assert_eq!(field.loser(), t);
    let field = Field::from([[n, n, n, n], [n, t, n, n], [n, n, t, n], [n, n, n, t]]);
    assert_eq!(field.loser(), t);
    let field = Field::from([[n, t, n, n], [n, n, t, n], [n, n, n, t], [n, n, n, n]]);
    assert_eq!(field.loser(), t);
    let field = Field::from([[n, n, n, n], [n, n, n, t], [n, n, t, n], [n, t, n, n]]);
    assert_eq!(field.loser(), t);
}

#[test]
fn test_manipulations() {
    let f = Some(false);
    let t = Some(true);
    let n: Option<bool> = None;

    let field = Field::from([[t, f, n, n], [n, t, f, n], [n, n, t, f], [f, n, n, t]]);
    let mirror_x = Field::from([[f, n, n, t], [n, n, t, f], [n, t, f, n], [t, f, n, n]]);
    assert_eq!(field.mirror_x(), mirror_x);

    let mirror_y = Field::from([[n, n, f, t], [n, f, t, n], [f, t, n, n], [t, n, n, f]]);
    assert_eq!(field.mirror_y(), mirror_y);
}
