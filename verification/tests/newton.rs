use nexsys::lookup;
use nexsys::mvcalc::{
    default_dx, jacobian, mv_newton_raphson, newton_raphson, partial_d_dx, SolverResult, Variable,
};
use nexsys::num::Num;
use nexsys::stitch_hm;
use nexsys::SolveError;

fn num(s: &str) -> Num {
    Num::new(s)
}

fn val(n: &Num) -> f64 {
    n.as_text().parse().unwrap()
}

fn var(x: f64) -> Variable {
    Variable::new(Num::new(&format!("{}", x)), None)
}

fn guess_of(names: &[&str]) -> Vec<(String, Variable)> {
    names.iter().map(|n| (n.to_string(), var(1.0))).collect()
}

fn checkit(my_sys: Vec<&str>, soln: Vec<(&str, f64)>) {
    let guess = guess_of(&soln.iter().map(|p| p.0).collect::<Vec<_>>());
    let ans = mv_newton_raphson(my_sys, guess, &num("0.001"), 10);
    match ans {
        SolverResult::Converged(t) => {
            for (name, expect) in soln {
                let v = lookup(&t, &name.to_string()).unwrap();
                assert_eq!(val(v.read()).round(), expect);
            }
        }
        SolverResult::Exhausted(_) => panic!("ran out of iterations"),
        SolverResult::Failed => panic!("failed"),
    }
}

#[test]
fn test_jacobian() {
    let my_sys = vec!["x^2 + y", "y   - x"];
    let guess = guess_of(&["x", "y"]);
    let my_j = jacobian(&my_sys, &guess, &default_dx()).unwrap();
    let vars = my_j.vars().clone().unwrap();
    let cols = stitch_hm(vars, my_j.to_vec());
    let cx = lookup(&cols, &"x".to_string()).unwrap();
    let cy = lookup(&cols, &"y".to_string()).unwrap();
    assert_eq!(val(&cx[0]).round(), 2.0);
    assert_eq!(val(&cx[1]).round(), -1.0);
    assert_eq!(val(&cy[1]).round(), 1.0);
    assert_eq!(val(&cy[0]).round(), 1.0);
}

#[test]
fn test_solver() {
    let case_a = vec!["x^2 + y", "y -   x"];
    let soln_a = vec![("x", 0.0), ("y", 0.0)];

    let case_b = vec![
        "2*x + 5*y + 2*z - -38",
        "3*x - 2*y + 4*z - 17",
        "-6*x + y - 7*z - -12",
    ];
    let soln_b = vec![("x", 3.0), ("y", -8.0), ("z", -2.0)];

    checkit(case_a, soln_a);
    checkit(case_b, soln_b);
}

#[test]
fn test_newton_raphson() {
    let equation = "x^2 + x - 1";
    let guess = ("x", var(1.0));
    let ans = newton_raphson(equation, guess, &num("0.0001"), 500, None).unwrap();
    println!("Soln: {}", ans.1.read().as_text());
    assert_eq!(val(ans.1.read()).round(), 1.0);
}

#[test]
fn univariate_converges_inside_bounds() {
    let guess = (
        "x",
        Variable::new(num("-1.0"), Some((num("-10.0"), num("0.0")))),
    );
    let ans = newton_raphson("x^2 - 1", guess, &num("0.001"), 500, None);
    match ans {
        SolverResult::Converged(p) => {
            assert!((val(p.1.read()) - -1.0).abs() < 1e-3);
        }
        _ => panic!("expected convergence"),
    }
}

#[test]
fn univariate_with_parameters() {
    let params = vec![("a".to_string(), var(4.0))];
    let ans = newton_raphson("x - a", ("x", var(1.0)), &num("0.001"), 100, Some(params));
    match ans {
        SolverResult::Converged(p) => assert!((val(p.1.read()) - 4.0).abs() < 1e-2),
        _ => panic!("expected convergence"),
    }
}

#[test]
fn zero_derivative_exhausts_the_budget() {
    let guess = (
        "x",
        Variable::new(num("5"), Some((num("-10"), num("10")))),
    );
    let ans = newton_raphson("5", guess, &num("0.001"), 7, None);
    match ans {
        SolverResult::Exhausted(p) => {
            assert_eq!(val(p.1.read()), -10.0);
        }
        _ => panic!("a constant equation cannot converge"),
    }
}

#[test]
fn residual_at_the_tolerance_is_not_converged() {
    let ans = newton_raphson("2", ("x", var(1.0)), &num("2"), 3, None);
    assert!(matches!(ans, SolverResult::Exhausted(_)));
    let ans = newton_raphson("2", ("x", var(1.0)), &num("2.5"), 3, None);
    match ans {
        SolverResult::Converged(p) => assert_eq!(val(p.1.read()), 1.0),
        _ => panic!("a residual strictly under the tolerance converges at once"),
    }
}

#[test]
fn whitespace_equation_fails() {
    let ans = newton_raphson(" ", ("x", var(1.0)), &num("0.001"), 10, None);
    assert!(matches!(ans, SolverResult::Failed));
    let ans = mv_newton_raphson(vec![" "], vec![("x".to_string(), var(1.0))], &num("0.001"), 5);
    assert!(matches!(ans, SolverResult::Failed));
}

#[test]
fn malformed_equation_fails() {
    let ans = newton_raphson("x +* 1", ("x", var(1.0)), &num("0.001"), 10, None);
    assert!(matches!(ans, SolverResult::Failed));
}

#[test]
fn singular_jacobian_fails() {
    let sys = vec!["x + y", "x + y"];
    let ans = mv_newton_raphson(sys, guess_of(&["x", "y"]), &num("0.001"), 10);
    assert!(matches!(ans, SolverResult::Failed));
}

#[test]
fn non_square_system_fails() {
    let sys = vec!["x + y"];
    let ans = mv_newton_raphson(sys, guess_of(&["x", "y"]), &num("0.001"), 10);
    assert!(matches!(ans, SolverResult::Failed));
}

#[test]
fn jacobian_rejects_non_square() {
    let sys = vec!["x + y"];
    let err = jacobian(&sys, &guess_of(&["x", "y"]), &default_dx()).unwrap_err();
    assert_eq!(err, SolveError::UnderOrOverConstrained);
}

#[test]
fn jacobian_rejects_malformed() {
    let sys = vec!["x +* y", "x - y"];
    let err = jacobian(&sys, &guess_of(&["x", "y"]), &default_dx()).unwrap_err();
    assert_eq!(err, SolveError::EvaluationError);
}

#[test]
fn jacobian_columns_follow_guess_order() {
    let sys = vec!["x + 2*y", "3*x - y"];
    let j = jacobian(&sys, &guess_of(&["x", "y"]), &default_dx()).unwrap();
    let vars = j.vars().clone().unwrap();
    assert_eq!(vars, vec!["x".to_string(), "y".to_string()]);
    let m = j.to_vec();
    assert!((val(&m[0][0]) - 1.0).abs() < 1e-3);
    assert!((val(&m[0][1]) - 3.0).abs() < 1e-3);
    assert!((val(&m[1][0]) - 2.0).abs() < 1e-3);
    assert!((val(&m[1][1]) - -1.0).abs() < 1e-3);
}

#[test]
fn partial_derivative_of_expression() {
    let guess = guess_of(&["x", "y", "z"]);
    let d = partial_d_dx("x^2 + y - z", &guess, &"x".to_string(), &default_dx()).unwrap();
    assert_eq!(val(&d).round(), 2.0);
}

#[test]
fn exhausted_run_reports_remaining_error() {
    let sys = vec!["x^2 - 2"];
    let guess = vec![("x".to_string(), var(1.0))];
    let ans = mv_newton_raphson(sys, guess, &num("1e-300"), 3);
    match ans {
        SolverResult::Exhausted(t) => {
            let e = lookup(&t, &"__error__".to_string()).unwrap();
            assert!(val(e.read()) >= 0.0);
        }
        SolverResult::Converged(_) => panic!("tolerance should be unreachable"),
        SolverResult::Failed => panic!("failed"),
    }
}

#[test]
fn solver_result_unwrap_keeps_the_value() {
    let a: SolverResult<i32> = SolverResult::Converged(7);
    assert_eq!(a.unwrap(), 7);
    let b: SolverResult<i32> = SolverResult::Exhausted(9);
    assert_eq!(b.unwrap(), 9);
}
