use parquet_dictionary::random::{seed_or, Expr, FunctionExpr, RandomMethod};

fn column(name: &str) -> Expr {
    Expr::Column(name.into())
}

fn parts(expr: Expr) -> (Vec<Expr>, RandomMethod, Option<u64>) {
    match expr {
        Expr::Function { input, function: FunctionExpr::Random { method, seed } } => {
            (input, method, seed)
        },
        _ => panic!("a function was expected"),
    }
}

#[test]
fn shuffle_keeps_the_seed() {
    let (input, method, seed) = parts(column("a").shuffle(Some(42)));
    assert_eq!(input.len(), 1);
    assert!(matches!(&input[0], Expr::Column(name) if name == "a"));
    assert_eq!(method, RandomMethod::Shuffle);
    assert_eq!(seed, Some(42));
}

#[test]
fn shuffle_draws_a_seed() {
    let (_, method, seed) = parts(column("a").shuffle(None));
    assert_eq!(method, RandomMethod::Shuffle);
    assert!(seed.is_some());
}

#[test]
fn sample_n_takes_rows() {
    let (input, method, seed) = parts(column("a").sample_n(Expr::Literal(3), true, false, Some(7)));
    assert_eq!(input.len(), 2);
    assert!(matches!(&input[0], Expr::Column(name) if name == "a"));
    assert!(matches!(&input[1], Expr::Literal(3)));
    assert_eq!(
        method,
        RandomMethod::Sample { is_fraction: false, with_replacement: true, shuffle: false },
    );
    assert_eq!(seed, Some(7));
    let (_, _, seed) = parts(column("a").sample_n(Expr::Literal(3), false, true, None));
    assert!(seed.is_some());
}

#[test]
fn sample_frac_takes_a_fraction() {
    let (input, method, seed) = parts(column("a").sample_frac(column("f"), false, true, Some(0)));
    assert_eq!(input.len(), 2);
    assert!(matches!(&input[1], Expr::Column(name) if name == "f"));
    assert_eq!(
        method,
        RandomMethod::Sample { is_fraction: true, with_replacement: false, shuffle: true },
    );
    assert_eq!(seed, Some(0));
    let (_, _, seed) = parts(column("a").sample_frac(column("f"), false, true, None));
    assert!(seed.is_some());
}

#[test]
fn named_seed_wins() {
    assert_eq!(seed_or(Some(1), 2), 1);
    assert_eq!(seed_or(None, 2), 2);
    let function = FunctionExpr::Random { method: RandomMethod::Shuffle, seed: None };
    let (input, _, seed) = parts(column("a").map_unary(function));
    assert_eq!(input.len(), 1);
    assert_eq!(seed, None);
    let (input, _, _) = parts(column("a").map_binary(function, column("b")));
    assert_eq!(input.len(), 2);
}
