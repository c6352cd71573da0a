use nexsys::mvcalc::Variable;
use nexsys::num::Num;
use nexsys::{index_map, key_position, lookup, split_hm, stitch_hm};

fn num(s: &str) -> Num {
    Num::new(s)
}

fn val(n: &Num) -> f64 {
    n.as_text().parse().unwrap()
}

fn bounded(x: f64, lo: f64, hi: f64) -> Variable {
    Variable::new(
        Num::new(&format!("{}", x)),
        Some((Num::new(&format!("{}", lo)), Num::new(&format!("{}", hi)))),
    )
}

#[test]
fn step_clamps_to_the_upper_bound() {
    let mut v = bounded(5.0, 0.0, 10.0);
    v.step(&num("10.0"));
    assert_eq!(val(v.read()), 10.0);
}

#[test]
fn step_clamps_to_the_lower_bound() {
    let mut v = bounded(5.0, 0.0, 10.0);
    v.step(&num("-7.5"));
    assert_eq!(val(v.read()), 0.0);
}

#[test]
fn step_inside_the_domain_is_kept() {
    let mut v = bounded(5.0, 0.0, 10.0);
    v.step(&num("2.5"));
    assert_eq!(val(v.read()), 7.5);
}

#[test]
fn step_without_a_domain_is_unconditional() {
    let mut v = Variable::new(num("5"), None);
    v.step(&num("1000"));
    assert_eq!(val(v.read()), 1005.0);
}

#[test]
fn change_applies_the_same_policy() {
    let mut v = bounded(5.0, 0.0, 10.0);
    v.change(&num("15.0"));
    assert_eq!(val(v.read()), 10.0);
    v.change(&num("-1.0"));
    assert_eq!(val(v.read()), 0.0);
    v.change(&num("3.25"));
    assert_eq!(val(v.read()), 3.25);
}

#[test]
fn a_candidate_at_a_bound_lands_on_that_bound() {
    let mut v = bounded(5.0, 0.0, 10.0);
    v.change(&num("0.0"));
    assert_eq!(val(v.read()), 0.0);
    let mut w = bounded(5.0, 0.0, 10.0);
    w.change(&num("10.0"));
    assert_eq!(val(w.read()), 10.0);
}

#[test]
fn edit_val_keeps_the_domain_for_later() {
    let v = bounded(5.0, 0.0, 10.0);
    let probe = v.edit_val(&num("12.0"));
    assert_eq!(val(probe.read()), 12.0);
    let mut probe = probe;
    probe.step(&num("100.0"));
    assert_eq!(val(probe.read()), 10.0);
}

#[test]
fn whitespace_value_reads_as_nan_and_clamps_low() {
    let mut v = Variable::new(Num::new(" "), Some((num("0.0"), num("10.0"))));
    v.step(&num("1.0"));
    assert_eq!(val(v.read()), 0.0);
}

#[test]
fn split_and_stitch_pair_keys_with_values() {
    let hm = vec![
        ("a".to_string(), 1i32),
        ("b".to_string(), 2),
        ("c".to_string(), 3),
    ];
    let (keys, vals) = split_hm(hm);
    assert_eq!(keys, vec!["a".to_string(), "b".to_string(), "c".to_string()]);
    assert_eq!(vals, vec![1, 2, 3]);

    let back = stitch_hm(keys, vals);
    assert_eq!(back.len(), 3);
    assert_eq!(*lookup(&back, &"a".to_string()).unwrap(), 1);
    assert_eq!(*lookup(&back, &"b".to_string()).unwrap(), 2);
    assert_eq!(*lookup(&back, &"c".to_string()).unwrap(), 3);
    assert_eq!(back[0].0, "c".to_string());
}

#[test]
fn index_map_records_positions() {
    let hm = vec![("x".to_string(), 10i32), ("y".to_string(), 20)];
    let im = index_map(&hm);
    assert_eq!(im, vec![("x".to_string(), 0usize), ("y".to_string(), 1)]);
}

#[test]
fn lookup_finds_the_first_occurrence() {
    let hm = vec![("x".to_string(), 1i32), ("y".to_string(), 2)];
    assert_eq!(*lookup(&hm, &"y".to_string()).unwrap(), 2);
    assert!(lookup(&hm, &"z".to_string()).is_none());
    assert_eq!(key_position(&hm, &"y".to_string()), Some(1));
    assert_eq!(key_position(&hm, &"q".to_string()), None);
}
