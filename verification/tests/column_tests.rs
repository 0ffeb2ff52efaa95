use ritzel::column::Column;

const ALL: [Column; 3] = [Column::Left, Column::Ratio, Column::Right];

#[test]
fn missing_of_left_and_ratio_is_right() {
    assert_eq!(Column::get_missing(Column::Left, Column::Ratio), Column::Right);
    assert_eq!(Column::get_missing(Column::Ratio, Column::Left), Column::Right);
}

#[test]
fn missing_of_left_and_right_is_ratio() {
    assert_eq!(Column::get_missing(Column::Left, Column::Right), Column::Ratio);
    assert_eq!(Column::get_missing(Column::Right, Column::Left), Column::Ratio);
}

#[test]
fn missing_of_ratio_and_right_is_left() {
    assert_eq!(Column::get_missing(Column::Ratio, Column::Right), Column::Left);
    assert_eq!(Column::get_missing(Column::Right, Column::Ratio), Column::Left);
}

#[test]
fn missing_does_not_depend_on_order() {
    for a in ALL {
        for b in ALL {
            if a != b {
                assert_eq!(Column::get_missing(a, b), Column::get_missing(b, a));
            }
        }
    }
}

#[test]
fn missing_is_neither_argument() {
    for a in ALL {
        for b in ALL {
            if a != b {
                let c = Column::get_missing(a, b);
                assert_ne!(c, a);
                assert_ne!(c, b);
            }
        }
    }
}

#[test]
fn missing_of_the_three_pairs_covers_the_three_columns() {
    let outputs = [
        Column::get_missing(Column::Left, Column::Ratio),
        Column::get_missing(Column::Left, Column::Right),
        Column::get_missing(Column::Ratio, Column::Right),
    ];
    assert_ne!(outputs[0], outputs[1]);
    assert_ne!(outputs[0], outputs[2]);
    assert_ne!(outputs[1], outputs[2]);
    for c in ALL {
        assert!(outputs.contains(&c));
    }
}

#[test]
fn missing_of_a_column_and_the_missing_one_is_the_other() {
    for a in ALL {
        for b in ALL {
            if a != b {
                let c = Column::get_missing(a, b);
                assert_eq!(Column::get_missing(a, c), b);
                assert_eq!(Column::get_missing(c, b), a);
            }
        }
    }
}
