use epsh::arith::eval_arith;
use epsh::error::ExitStatus;
use epsh::var::Variables;

fn eval(expr: &str) -> i64 {
    let mut vars = Variables::new();
    eval_arith(expr, &mut vars, ExitStatus::SUCCESS(), 1).unwrap()
}

fn eval_with_vars(expr: &str, vars: &mut Variables) -> i64 {
    eval_arith(expr, vars, ExitStatus::SUCCESS(), 1).unwrap()
}

#[test]
fn basic_arithmetic() {
    assert_eq!(eval("1 + 2"), 3);
    assert_eq!(eval("10 - 3"), 7);
    assert_eq!(eval("4 * 5"), 20);
    assert_eq!(eval("15 / 3"), 5);
    assert_eq!(eval("17 % 5"), 2);
}

#[test]
fn precedence() {
    assert_eq!(eval("2 + 3 * 4"), 14);
    assert_eq!(eval("(2 + 3) * 4"), 20);
    assert_eq!(eval("10 - 2 * 3"), 4);
}

#[test]
fn unary() {
    assert_eq!(eval("-5"), -5);
    assert_eq!(eval("+5"), 5);
    assert_eq!(eval("!0"), 1);
    assert_eq!(eval("!1"), 0);
    assert_eq!(eval("~0"), -1);
}

#[test]
fn comparison() {
    assert_eq!(eval("1 == 1"), 1);
    assert_eq!(eval("1 == 2"), 0);
    assert_eq!(eval("1 != 2"), 1);
    assert_eq!(eval("1 < 2"), 1);
    assert_eq!(eval("2 <= 2"), 1);
    assert_eq!(eval("3 > 2"), 1);
    assert_eq!(eval("2 >= 3"), 0);
}

#[test]
fn logical() {
    assert_eq!(eval("1 && 1"), 1);
    assert_eq!(eval("1 && 0"), 0);
    assert_eq!(eval("0 || 1"), 1);
    assert_eq!(eval("0 || 0"), 0);
}

#[test]
fn bitwise() {
    assert_eq!(eval("5 & 3"), 1);
    assert_eq!(eval("5 | 3"), 7);
    assert_eq!(eval("5 ^ 3"), 6);
    assert_eq!(eval("1 << 3"), 8);
    assert_eq!(eval("16 >> 2"), 4);
}

#[test]
fn ternary() {
    assert_eq!(eval("1 ? 10 : 20"), 10);
    assert_eq!(eval("0 ? 10 : 20"), 20);
}

#[test]
fn variables() {
    let mut vars = Variables::new();
    vars.set("x", "10").unwrap();
    assert_eq!(eval_with_vars("x + 5", &mut vars), 15);
}

#[test]
fn arith_assignment() {
    let mut vars = Variables::new();
    assert_eq!(eval_with_vars("x = 42", &mut vars), 42);
    assert_eq!(vars.get("x"), Some("42"));
}

#[test]
fn compound_assignment() {
    let mut vars = Variables::new();
    vars.set("x", "10").unwrap();
    assert_eq!(eval_with_vars("x += 5", &mut vars), 15);
    assert_eq!(vars.get("x"), Some("15"));
}

#[test]
fn hex_octal() {
    assert_eq!(eval("0xff"), 255);
    assert_eq!(eval("0xFF"), 255);
    assert_eq!(eval("010"), 8);
    assert_eq!(eval("0x10"), 16);
}

#[test]
fn division_by_zero() {
    let mut vars = Variables::new();
    assert!(eval_arith("1 / 0", &mut vars, ExitStatus::SUCCESS(), 1).is_err());
    assert!(eval_arith("1 % 0", &mut vars, ExitStatus::SUCCESS(), 1).is_err());
}

#[test]
fn nested_parens() {
    assert_eq!(eval("((1 + 2) * (3 + 4))"), 21);
}

#[test]
fn complex_expr() {
    assert_eq!(eval("2 + 3 * 4 - 1"), 13);
    assert_eq!(eval("(1 + 2) * 3 == 9"), 1);
    assert_eq!(eval("10 > 5 && 3 < 7"), 1);
}
