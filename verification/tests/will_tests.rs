use evolver::body::projection::Projector;
use evolver::dsl::math_kernel::is_prime_basic;
use evolver::dsl::stp_bridge::StpBridge;
use evolver::soul::algebra::{IdealClass, Quaternion};
use evolver::will::evaluator::StpEvaluator;
use evolver::will::tracer::TraceVerifier;

#[test]
fn compile_keeps_the_logic_as_one_axiom() {
    assert_eq!(StpBridge::compile("y = x1 XOR x2"), vec!["y = x1 XOR x2".to_string()]);
    assert_eq!(StpBridge::compile(""), vec![String::new()]);
}

#[test]
fn basic_primality_of_signed_integers() {
    assert!(!is_prime_basic(-7));
    assert!(!is_prime_basic(0));
    assert!(!is_prime_basic(1));
    assert!(is_prime_basic(2));
    assert!(is_prime_basic(3));
    assert!(!is_prime_basic(9));
    assert!(is_prime_basic(97));
    assert!(!is_prime_basic(961));
    assert!(is_prime_basic(2147483647));
}

#[test]
fn exact_path_has_three_digits_per_action() {
    let evaluator = StpEvaluator::new(Projector::new(13), 1);
    let s = IdealClass { value: Quaternion::new(1, 1, 0, 0), discriminator: 37 };
    let path = evaluator.exact_path(&s);
    assert_eq!(path.len(), 3);
    let p = Projector::new(13);
    let mut state = s;
    for (t, digit) in path.iter().enumerate() {
        assert_eq!(*digit, p.project_exact(&state, t as u64));
        state = state.apply_hecke(&state.value);
    }
}

#[test]
fn replay_follows_the_dynamics() {
    let r = TraceVerifier::replay(0i64, &vec![5i64, 5], |x: &i64, u: &i64| Some(*x + *u));
    assert_eq!(r, Ok(10));
    let rejected = TraceVerifier::replay(0i64, &vec![5i64, -1, 5], |x: &i64, u: &i64| {
        if *u < 0 { None } else { Some(*x + *u) }
    });
    assert_eq!(rejected, Err(1));
    assert_eq!(TraceVerifier::replay(3i64, &Vec::new(), |x: &i64, u: &i64| Some(*x + *u)), Ok(3));
}
