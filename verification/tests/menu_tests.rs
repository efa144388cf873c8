use exercises::menu::{read_i32_line, read_u32_line, select_option, MenuChoice};

#[test]
fn each_number_selects_its_handler() {
    assert_eq!(select_option("1"), MenuChoice::ComputePi);
    assert_eq!(select_option("2"), MenuChoice::ComputeSqrt);
    assert_eq!(select_option("3"), MenuChoice::DisplayPrimes);
    assert_eq!(select_option("4"), MenuChoice::ProcessScores);
    assert_eq!(select_option("5"), MenuChoice::ComputeTax);
    assert_eq!(select_option("6"), MenuChoice::QuadraticMut);
    assert_eq!(select_option("7"), MenuChoice::QuadraticTuple);
    assert_eq!(select_option("8"), MenuChoice::SumSquares);
    assert_eq!(select_option("9"), MenuChoice::FileCount);
    assert_eq!(select_option("10"), MenuChoice::Quit);
}

#[test]
fn out_of_range_selections_are_invalid() {
    assert_eq!(select_option("0"), MenuChoice::Invalid);
    assert_eq!(select_option("11"), MenuChoice::Invalid);
    assert_eq!(select_option("300"), MenuChoice::Invalid);
}

#[test]
fn non_numeric_selections_are_invalid() {
    assert_eq!(select_option("abc"), MenuChoice::Invalid);
    assert_eq!(select_option(""), MenuChoice::Invalid);
    assert_eq!(select_option("1x"), MenuChoice::Invalid);
    assert_eq!(select_option("-1"), MenuChoice::Invalid);
}

#[test]
fn selection_ignores_surrounding_whitespace() {
    assert_eq!(select_option(" 3 \n"), MenuChoice::DisplayPrimes);
    assert_eq!(select_option("\t10\r\n"), MenuChoice::Quit);
}

#[test]
fn selection_accepts_an_explicit_plus_sign() {
    assert_eq!(select_option("+3"), MenuChoice::DisplayPrimes);
    assert_eq!(select_option("+10"), MenuChoice::Quit);
}

#[test]
fn an_invalid_selection_leaves_later_ones_unchanged() {
    // The step is a pure function of its line: the same line selects
    // the same handler whatever came before it.
    let before = select_option("3");
    assert_eq!(select_option("oops"), MenuChoice::Invalid);
    assert_eq!(select_option("garbage"), MenuChoice::Invalid);
    let after = select_option("3");
    assert_eq!(before, after);
    assert_eq!(after, MenuChoice::DisplayPrimes);
}

#[test]
fn line_readers_trim_and_parse() {
    assert_eq!(read_u32_line(" 25\n"), Some(25));
    assert_eq!(read_u32_line("nope"), None);
    assert_eq!(read_i32_line(" -40 \n"), Some(-40));
    assert_eq!(read_i32_line("7.5"), None);
}
