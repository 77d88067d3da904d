use wm::columns::grid::ColumnWidth;
use wm::columns::spec::column_widths;
use wm::columns::spec::distribute_columns;
use wm::columns::spec::parse_columns_spec;
use wm::columns::spec::row_major;
use wm::columns::spec::ColumnKind;
use wm::columns::spec::SpecError;
use wm::state::Fraction;

#[test]
fn parses_star_center_star() {
    assert_eq!(
        parse_columns_spec("*,C,*").unwrap(),
        vec![ColumnKind::Star, ColumnKind::Center, ColumnKind::Star]
    );
}

#[test]
fn parses_explicit_and_lowercase_center() {
    assert_eq!(
        parse_columns_spec("2,1,c,3").unwrap(),
        vec![
            ColumnKind::Fixed(2),
            ColumnKind::Fixed(1),
            ColumnKind::Center,
            ColumnKind::Fixed(3),
        ]
    );
}

#[test]
fn rejects_bad_specs() {
    // No center.
    assert!(parse_columns_spec("*,*").is_err());
    // More than one center.
    assert!(parse_columns_spec("C,C").is_err());
    // Zero fixed count.
    assert!(parse_columns_spec("0,C").is_err());
    // Unparseable token.
    assert!(parse_columns_spec("x,C").is_err());
}

#[test]
fn deals_side_windows_row_by_row() {
    // `*,C,*` with 4 side windows: dealt alternately, left first.
    let kinds = parse_columns_spec("*,C,*").unwrap();
    let columns = distribute_columns(&kinds, 0, vec![1, 2, 3, 4]);
    assert_eq!(columns, vec![vec![1, 3], vec![0], vec![2, 4]]);
}

#[test]
fn row_major_inverts_the_deal() {
    // Reading the grid back row-major must reproduce the sequence that
    // was dealt into it, otherwise reapplying a layout to its own output
    // permutes the windows.
    for spec in ["*,C,*", "C,*", "2,C,*", "1,2,C,*", "*,C"] {
        let kinds = parse_columns_spec(spec).unwrap();

        for count in 0..=8 {
            let rest = (1..=count).collect::<Vec<_>>();
            let columns = distribute_columns(&kinds, 0, rest.clone());

            // The center drops out of the read; the rest come back in
            // order.
            let read = row_major(&columns)
                .into_iter()
                .filter(|window| *window != 0)
                .collect::<Vec<_>>();
            assert_eq!(read, rest, "spec `{spec}` with {count} side windows");

            // Applying the layout to what was read back is a no-op.
            assert_eq!(distribute_columns(&kinds, 0, read), columns);
        }
    }
}

#[test]
fn growing_the_window_count_never_moves_a_window() {
    // Going from 1 to 2 side windows must not move the existing window
    // from one stack to the other, or windows would visibly jump columns
    // every time one was opened or closed.
    for spec in ["*,C,*", "C,*", "2,C,*", "1,2,C,*"] {
        let kinds = parse_columns_spec(spec).unwrap();
        let mut placements = Vec::new();

        for count in 1..=6 {
            let rest = (1..=count).collect::<Vec<_>>();
            let columns = distribute_columns(&kinds, 0, rest);

            let column_of =
                |window: i32| columns.iter().position(|col| col.contains(&window));

            placements.push((1..=count).map(column_of).collect::<Vec<_>>());
        }

        // Every window keeps the column it had at the smaller count.
        for pair in placements.windows(2) {
            assert_eq!(pair[0][..], pair[1][..pair[0].len()], "spec `{spec}`");
        }
    }
}

#[test]
fn appends_unplaced_windows_to_last_non_center_column() {
    // `1,C` places one window in the fixed column and no `*` to absorb the
    // rest, so the leftovers land in the last non-center column.
    let kinds = parse_columns_spec("1,C").unwrap();
    let columns = distribute_columns(&kinds, 0, vec![1, 2, 3]);
    assert_eq!(columns, vec![vec![1, 2, 3], vec![0]]);
}

#[test]
fn fixed_column_stops_taking_windows_at_its_count() {
    // `2,C,*`: the fixed column takes exactly two windows, dealt on the
    // first two rows, and the `*` column absorbs the remaining three.
    let kinds = parse_columns_spec("2,C,*").unwrap();
    let columns = distribute_columns(&kinds, 0, vec![1, 2, 3, 4, 5]);
    assert_eq!(columns, vec![vec![1, 3], vec![0], vec![2, 4, 5]]);
}

#[test]
fn center_only_spec_places_just_the_center() {
    let kinds = parse_columns_spec("C").unwrap();
    let columns = distribute_columns(&kinds, 0, vec![]);
    assert_eq!(columns, vec![vec![0]]);
}

/// The fraction that a column width stands for.
fn width_of(width: &ColumnWidth) -> f32 {
    match width {
        ColumnWidth::Center(center) => f32::from_bits(center.bits),
        ColumnWidth::Side { center, sharing } => {
            (1.0 - f32::from_bits(center.bits)) / *sharing as f32
        }
        ColumnWidth::Even(count) => 1.0 / *count as f32,
        ColumnWidth::Kept(width) => f32::from_bits(width.bits),
    }
}

#[test]
fn widths_split_remainder_evenly() {
    let kinds = parse_columns_spec("*,C,*").unwrap();
    let center = Fraction {
        bits: 0.6_f32.to_bits(),
    };
    let widths = column_widths(&kinds, center)
        .iter()
        .map(width_of)
        .collect::<Vec<_>>();

    assert_eq!(widths.len(), 3);
    assert!((widths[0] - 0.2).abs() < f32::EPSILON);
    assert!((widths[1] - 0.6).abs() < f32::EPSILON);
    assert!((widths[2] - 0.2).abs() < f32::EPSILON);
}

#[test]
fn each_spec_error_names_its_cause() {
    assert_eq!(
        parse_columns_spec("1, x y ,C"),
        Err(SpecError::Token("x y".to_string()))
    );
    assert_eq!(
        parse_columns_spec("-1,C"),
        Err(SpecError::Token("-1".to_string()))
    );
    assert_eq!(
        parse_columns_spec("99999999999999999999999,C"),
        Err(SpecError::Token("99999999999999999999999".to_string()))
    );
    assert_eq!(
        parse_columns_spec("+,C"),
        Err(SpecError::Token("+".to_string()))
    );
    assert_eq!(parse_columns_spec("00,C,C"), Err(SpecError::ZeroCount));
    assert_eq!(parse_columns_spec("C,*,c"), Err(SpecError::CenterCount));
    assert_eq!(parse_columns_spec(""), Err(SpecError::CenterCount));
    // The first fault in the spec is the one reported.
    assert_eq!(
        parse_columns_spec("q,0,C"),
        Err(SpecError::Token("q".to_string()))
    );
    assert_eq!(parse_columns_spec("0,q"), Err(SpecError::ZeroCount));
}

#[test]
fn empty_tokens_and_spaces_are_passed_over() {
    assert_eq!(
        parse_columns_spec(" +2 ,, C\u{3000},\t* ,").unwrap(),
        vec![ColumnKind::Fixed(2), ColumnKind::Center, ColumnKind::Star]
    );
}

#[test]
fn a_surplus_behind_a_shorter_last_column_does_not_read_back() {
    // The surplus of `3,1,C` goes to the last side column, which filled
    // before the first did, so the rows interleave the two.
    let kinds = parse_columns_spec("3,1,C").unwrap();
    let columns = distribute_columns(&kinds, 0, vec![1, 2, 3, 4, 5, 6]);
    assert_eq!(columns, vec![vec![1, 3, 4], vec![2, 5, 6], vec![0]]);
    assert_eq!(row_major(&columns), vec![1, 2, 0, 3, 5, 4, 6]);
}

#[test]
fn a_surplus_behind_a_deepest_last_column_reads_back() {
    let kinds = parse_columns_spec("1,2,C").unwrap();
    let columns = distribute_columns(&kinds, 0, vec![1, 2, 3, 4, 5, 6]);
    assert_eq!(columns, vec![vec![1], vec![2, 3, 4, 5, 6], vec![0]]);
    assert_eq!(row_major(&columns), vec![1, 2, 0, 3, 4, 5, 6]);
}

#[test]
fn a_distribution_holds_every_window_once() {
    let kinds = parse_columns_spec("2,*,C,1").unwrap();
    for count in 0..10 {
        let rest = (1..=count).collect::<Vec<i32>>();
        let mut all = distribute_columns(&kinds, 0, rest).concat();
        all.sort_unstable();
        assert_eq!(all, (0..=count).collect::<Vec<i32>>());
    }
}

#[test]
fn the_center_alone_takes_no_leftovers() {
    let kinds = parse_columns_spec("C").unwrap();
    assert_eq!(distribute_columns(&kinds, 0, vec![1, 2]), vec![vec![0]]);
}

#[test]
fn moves_owned_items_through_the_deal() {
    let kinds = parse_columns_spec("C,*").unwrap();
    let columns = distribute_columns(
        &kinds,
        "m".to_string(),
        vec!["a".to_string(), "b".to_string()],
    );
    assert_eq!(row_major(&columns), vec!["m", "a", "b"]);
}

#[test]
fn a_surplus_behind_a_column_one_row_deeper_reads_back() {
    let kinds = parse_columns_spec("2,1,C").unwrap();
    let columns = distribute_columns(&kinds, 0, vec![1, 2, 3, 4, 5, 6]);
    assert_eq!(columns, vec![vec![1, 3], vec![2, 4, 5, 6], vec![0]]);
    assert_eq!(row_major(&columns), vec![1, 2, 0, 3, 4, 5, 6]);
}

#[test]
fn fixed_columns_read_back_unless_the_surplus_starts_too_high() {
    for first in 1..5_usize {
        for second in 1..5_usize {
            for third in 1..5_usize {
                let kinds =
                    parse_columns_spec(&format!("{first},C,{second},{third}")).unwrap();
                let capacity = first + second + third;
                for count in 0..16_usize {
                    let rest = (1..=count).collect::<Vec<usize>>();
                    let columns = distribute_columns(&kinds, 0, rest.clone());
                    let mut read = row_major(&columns);
                    read.retain(|window| *window != 0);
                    let readable = count <= capacity || first.max(second) <= third + 1;
                    assert_eq!(read == rest, readable, "{first},C,{second},{third}: {count}");
                }
            }
        }
    }
}

#[test]
fn the_deal_is_even() {
    for spec in ["*,C,*", "*,*,C,*", "2,C,*", "*,3,C,1,*", "C,*"] {
        let kinds = parse_columns_spec(spec).unwrap();
        for count in 0..14_usize {
            let columns = distribute_columns(&kinds, 0, (1..=count).collect());
            let sides: Vec<(usize, usize)> = kinds
                .iter()
                .zip(&columns)
                .filter(|(kind, _)| **kind != ColumnKind::Center)
                .map(|(kind, column)| match kind {
                    ColumnKind::Fixed(limit) => (*limit, column.len()),
                    _ => (usize::MAX, column.len()),
                })
                .collect();
            for (i, (limit, mine)) in sides.iter().enumerate() {
                assert!(mine <= limit);
                for (j, (_, other)) in sides.iter().enumerate() {
                    assert!(*mine >= (*limit).min(other.saturating_sub(1)), "{spec}: {count}");
                    assert!(i >= j || *mine >= (*limit).min(*other), "{spec}: {count}");
                }
            }
        }
    }
}

#[test]
fn a_surplus_leaves_the_other_columns_full() {
    let kinds = parse_columns_spec("3,1,C,2").unwrap();
    for count in 6..12_usize {
        let columns = distribute_columns(&kinds, 0, (1..=count).collect());
        let lengths: Vec<usize> = columns.iter().map(Vec::len).collect();
        assert_eq!(lengths, vec![3, 1, 1, 2 + count - 6]);
    }
}
