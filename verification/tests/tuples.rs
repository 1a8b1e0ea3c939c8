use synapse_cli::db::tuples::remove_first_value_from_values_tuples;
use synapse_cli::text::{chars_of, string_of};

fn values_pass(input: &str) -> (String, usize) {
    let mut count = 0usize;
    let out = remove_first_value_from_values_tuples(&chars_of(input), &mut count);
    (string_of(&out), count)
}

#[test]
fn removes_first_value() {
    assert_eq!(values_pass("VALUES (1, 'a', 2)"), ("VALUES ('a', 2)".to_string(), 1));
}

#[test]
fn removes_first_value_of_each_tuple() {
    assert_eq!(
        values_pass("VALUES (1, 'a'), (2, 'b'), (3, 'c');"),
        ("VALUES ('a'), ('b'), ('c');".to_string(), 3)
    );
}

#[test]
fn removes_first_value_of_many_tuples() {
    let mut input = String::from("VALUES (0, x)");
    let mut expected = String::from("VALUES (x)");
    for k in 1..50 {
        input.push_str(&format!(",\n  ({}, x)", k));
        expected.push_str(",\n  (x)");
    }
    assert_eq!(values_pass(&input), (expected, 50));
}

#[test]
fn adds_to_the_counter() {
    let mut count = 7usize;
    let out = remove_first_value_from_values_tuples(&chars_of("values (1, 2), (3, 4)"), &mut count);
    assert_eq!(string_of(&out), "values (2), (4)");
    assert_eq!(count, 9);
}

#[test]
fn first_value_may_be_a_literal_with_commas() {
    assert_eq!(values_pass("VALUES ('a,b', 2)"), ("VALUES (2)".to_string(), 1));
    assert_eq!(values_pass("VALUES (\"a,b\", 2)"), ("VALUES (2)".to_string(), 1));
    assert_eq!(values_pass("VALUES ('a\\',b', 2)"), ("VALUES (2)".to_string(), 1));
}

#[test]
fn literal_with_parenthesis_stays_whole() {
    assert_eq!(values_pass("VALUES (1, 'a)b', 2) x"), ("VALUES ('a)b', 2) x".to_string(), 1));
}

#[test]
fn leading_white_space_of_the_rest_goes() {
    assert_eq!(values_pass("VALUES (1,   2  )"), ("VALUES (2  )".to_string(), 1));
    assert_eq!(values_pass("VALUES (1,\n\t\u{a0}2)"), ("VALUES (2)".to_string(), 1));
    assert_eq!(values_pass("VALUES (1,2)"), ("VALUES (2)".to_string(), 1));
}

#[test]
fn rest_may_be_empty() {
    assert_eq!(values_pass("VALUES (1,)"), ("VALUES ()".to_string(), 1));
    assert_eq!(values_pass("VALUES (,)"), ("VALUES ()".to_string(), 1));
}

#[test]
fn keyword_and_blanks_are_kept() {
    assert_eq!(values_pass("values\n\t (1, 2)"), ("values\n\t (2)".to_string(), 1));
    assert_eq!(values_pass("VALUES(1, 2)"), ("VALUES(2)".to_string(), 1));
}

#[test]
fn blanks_before_a_chain_comma_go() {
    assert_eq!(values_pass("VALUES (1, 2)  ,  (3, 4)"), ("VALUES (2),  (4)".to_string(), 2));
    assert_eq!(values_pass("VALUES (1, 2),(3, 4)"), ("VALUES (2),(4)".to_string(), 2));
}

#[test]
fn single_value_tuple_is_left() {
    assert_eq!(values_pass("VALUES (1);"), ("VALUES (1);".to_string(), 0));
    assert_eq!(values_pass("VALUES ('a,b');"), ("VALUES ('a,b');".to_string(), 0));
}

#[test]
fn comma_behind_the_tuple_is_not_inside_it() {
    let input = "VALUES (1), (2, 3)";
    assert_eq!(values_pass(input), (input.to_string(), 0));
    let dump = "VALUES (1); INSERT INTO t (a, b) VALUES (2, 3);";
    assert_eq!(values_pass(dump), (dump.to_string(), 0));
}

#[test]
fn chain_stops_without_touching_what_follows() {
    assert_eq!(values_pass("VALUES (1, 2), x"), ("VALUES (2), x".to_string(), 1));
    assert_eq!(values_pass("VALUES (1, 2) ;"), ("VALUES (2) ;".to_string(), 1));
    assert_eq!(values_pass("VALUES (1, 2), (3)"), ("VALUES (2), (3)".to_string(), 1));
    assert_eq!(values_pass("VALUES (1, 2),"), ("VALUES (2),".to_string(), 1));
    assert_eq!(values_pass("VALUES (1, 2)  "), ("VALUES (2)  ".to_string(), 1));
}

#[test]
fn keyword_without_tuple_is_left() {
    assert_eq!(values_pass("VALUES x (1, 2)"), ("VALUES x (1, 2)".to_string(), 0));
    assert_eq!(values_pass("values"), ("values".to_string(), 0));
    assert_eq!(values_pass("values  "), ("values  ".to_string(), 0));
    assert_eq!(values_pass("values ("), ("values (".to_string(), 0));
}

#[test]
fn keyword_without_tuple_ends_the_pass() {
    let input = "-- values of t\nVALUES (1, 2)";
    assert_eq!(values_pass(input), (input.to_string(), 0));
    let input = "INSERT INTO t (values_count) VALUES (1, 2)";
    assert_eq!(values_pass(input), (input.to_string(), 0));
    assert_eq!(
        values_pass("VALUES (1, 2); values; VALUES (3, 4)"),
        ("VALUES (2); values; VALUES (3, 4)".to_string(), 1)
    );
}

#[test]
fn single_value_tuple_ends_the_pass() {
    assert_eq!(
        values_pass("VALUES (1, 2); VALUES (3); VALUES (4, 5)"),
        ("VALUES (2); VALUES (3); VALUES (4, 5)".to_string(), 1)
    );
}

#[test]
fn clause_behind_a_chain_that_stopped_is_rewritten() {
    assert_eq!(
        values_pass("VALUES (1, 2), (3); VALUES (4, 5)"),
        ("VALUES (2), (3); VALUES (5)".to_string(), 2)
    );
    assert_eq!(
        values_pass("VALUES (1, 2) , x VALUES (4, 5)"),
        ("VALUES (2) , x VALUES (5)".to_string(), 2)
    );
}

#[test]
fn tuple_that_never_closes_is_left() {
    assert_eq!(values_pass("VALUES (1, 2"), ("VALUES (1, 2".to_string(), 0));
    assert_eq!(values_pass("VALUES (1, 'open)"), ("VALUES (1, 'open)".to_string(), 0));
    assert_eq!(values_pass("VALUES (1, 2), (3, 4"), ("VALUES (2), (3, 4".to_string(), 1));
}

#[test]
fn several_clauses() {
    assert_eq!(
        values_pass("VALUES (1, 2); VALUES (3, 4), (5, 6); VALUES (7)"),
        ("VALUES (2); VALUES (4), (6); VALUES (7)".to_string(), 3)
    );
}

#[test]
fn empty_input() {
    assert_eq!(values_pass(""), (String::new(), 0));
}

#[test]
fn first_value_may_hold_parentheses() {
    assert_eq!(values_pass("VALUES (f(1), 2)"), ("VALUES (2)".to_string(), 1));
    assert_eq!(values_pass("VALUES ((1), 2)"), ("VALUES (2)".to_string(), 1));
    assert_eq!(values_pass("VALUES (')', 1, 2)"), ("VALUES (1, 2)".to_string(), 1));
    assert_eq!(
        values_pass("VALUES (NOW(), 'a'), (UUID(), 'b');"),
        ("VALUES ('a'), ('b');".to_string(), 2)
    );
}

#[test]
fn rest_ends_at_its_first_parenthesis_outside_a_literal() {
    assert_eq!(values_pass("VALUES (1, f(2))"), ("VALUES (f(2))".to_string(), 1));
    assert_eq!(values_pass("VALUES (1, f(2), 3)"), ("VALUES (f(2), 3)".to_string(), 1));
    // the next tuple is looked for behind that parenthesis
    assert_eq!(
        values_pass("VALUES (1, f(2), 3), (4, 5)"),
        ("VALUES (f(2), 3), (4, 5)".to_string(), 1)
    );
}

#[test]
fn comma_behind_the_closed_tuple_does_not_count() {
    for input in ["VALUES (1) , 2)", "VALUES (), (1, 2)", "VALUES (f(1)), (2, 3)"] {
        assert_eq!(values_pass(input), (input.to_string(), 0));
    }
}
