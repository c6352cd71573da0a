use nexsys::gradient::{gradient_dx, mag, scale, solve};
use nexsys::lookup;
use nexsys::mvcalc::{d_dx, partial_func, SystemFn, Variable};
use nexsys::num::Num;

fn num(s: &str) -> Num {
    Num::new(s)
}

fn val(n: &Num) -> f64 {
    n.as_text().parse().unwrap()
}

fn var(x: f64) -> Variable {
    Variable::new(Num::new(&format!("{}", x)), None)
}

fn solve_plain(system: &str) -> Vec<(String, Num)> {
    solve(system, Vec::new(), 1000000, &num("0.0000001"), &num("0.0"))
}

fn value_of(map: &Vec<(String, Num)>, name: &str) -> f64 {
    val(lookup(map, &name.to_string()).unwrap())
}

#[test]
fn test_d_dx() {
    let guess = vec![("x".to_string(), var(2.0))];
    let f = partial_func(&SystemFn::residual("x * x"), &guess, "x");
    let derivative = val(&d_dx(&f, &num("2.0"), &gradient_dx()).unwrap());
    assert!(3.999 <= derivative && derivative <= 4.001);
}

#[test]
fn test_mag() {
    let myvec = vec![("x".to_string(), num("3.0")), ("y".to_string(), num("4.0"))];
    let check: f64 = 3.0 * 3.0 + 4.0 * 4.0;
    assert_eq!(val(&mag(&myvec)), check.sqrt());
}

#[test]
fn test_scale() {
    let mut myvec = vec![("x".to_string(), num("3.0")), ("y".to_string(), num("4.0"))];
    scale(&mut myvec, &num("25.0"));
    assert_eq!(value_of(&myvec, "x"), 15.0);
    assert_eq!(value_of(&myvec, "y"), 20.0);
}

#[test]
fn test_partial_func() {
    let system = "x + y = 9\nx - y = 4";
    let my_sys = SystemFn::error_sum(system);
    let my_guess = vec![("x".to_string(), var(1.0)), ("y".to_string(), var(1.0))];

    let pf_wrt_x = partial_func(&my_sys, &my_guess, "x");
    let pf_wrt_y = partial_func(&my_sys, &my_guess, "y");

    assert_eq!(val(&pf_wrt_x.call(&num("6.5")).unwrap()), 3.0);
    assert_eq!(val(&pf_wrt_y.call(&num("2.5")).unwrap()), 11.0);
}

#[test]
fn check_derivative() {
    let system = "x + y = 9\nx - y = 4";
    let my_sys = SystemFn::error_sum(system);
    let my_guess = vec![("x".to_string(), var(1.0)), ("y".to_string(), var(1.0))];

    let pf_wrt_x = partial_func(&my_sys, &my_guess, "x");
    let pf_wrt_y = partial_func(&my_sys, &my_guess, "y");

    assert_eq!(
        val(&d_dx(&pf_wrt_x, &num("1.0"), &gradient_dx()).unwrap()).round(),
        -2.0
    );
    assert_eq!(
        val(&d_dx(&pf_wrt_y, &num("1.0"), &gradient_dx()).unwrap()).round(),
        0.0
    );
}

#[test]
fn test_solve() {
    let sys1 = "x + y = 9\nx - y = 4";
    let ans1 = solve_plain(sys1);
    let x = value_of(&ans1, "x");
    let y = value_of(&ans1, "y");
    assert!(6.49 < x && x < 6.51 && 2.49 < y && y < 2.51);

    let sys2 = "x^2 - y = 0\nz - x = 1\nx + y = 1";
    let ans2 = solve_plain(sys2);
    let x = value_of(&ans2, "x");
    let y = value_of(&ans2, "y");
    let z = value_of(&ans2, "z");
    assert!(0.617 < x && x < 0.618);
    assert!(0.381 < y && y < 0.382);
    assert!(1.617 < z && z < 1.618);
}

#[test]
fn solve_respects_bounds() {
    let bounds = vec![("x".to_string(), (num("0.0"), num("2.0")))];
    let ans = solve("x = 9", bounds, 10000, &num("0.0000001"), &num("0.0"));
    let x = value_of(&ans, "x");
    assert!(0.0 <= x && x <= 2.0);
}

#[test]
fn solve_returns_every_variable() {
    let ans = solve_plain("alpha + beta_two = 3");
    assert_eq!(ans.len(), 2);
    assert!(lookup(&ans, &"alpha".to_string()).is_some());
    assert!(lookup(&ans, &"beta_two".to_string()).is_some());
}

#[test]
fn whitespace_line_stops_best_effort() {
    let ans = solve("x = 9\n ", Vec::new(), 100, &num("0.0000001"), &num("0.0"));
    assert_eq!(value_of(&ans, "x"), 1.0);
}

#[test]
fn correctness_function_is_reciprocal_error() {
    let f = SystemFn::correctness("x = 9\nx = 5");
    let guess = vec![("x".to_string(), var(7.0))];
    let c = val(&f.eval_at(&guess).unwrap());
    assert_eq!(c, 1.0 / 4.0);
}
