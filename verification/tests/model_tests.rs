use arcode::EOFKind;
use arcode::Model;

/// The real cumulative probabilities of a symbol: the scaled pair divided by
/// the total count.
fn prob(model: &Model, symbol: u32) -> (f64, f64) {
    let (lo, hi) = model.probability(symbol);
    let total = model.total_count() as f64;
    (lo as f64 / total, hi as f64 / total)
}

#[test]
fn model_constructor() {
    let model = Model::builder().num_symbols(4).eof(EOFKind::End).build();

    assert_eq!(3, model.eof());
    assert_eq!(prob(&model, 0), (0.0, 0.25));
    assert_eq!(prob(&model, 1), (0.25, 0.5));
    assert_eq!(prob(&model, 2), (0.5, 0.75));
    assert_eq!(prob(&model, 3), (0.75, 1.0));
}

#[test]
fn model_constructor_new() {
    let model = Model::builder().num_symbols(4).build();
    assert_eq!(4, model.eof());
    assert_eq!(prob(&model, 0), (0.0, 0.25));
    assert_eq!(prob(&model, 1), (0.25, 0.5));
    assert_eq!(prob(&model, 2), (0.5, 0.75));
    assert_eq!(prob(&model, 3), (0.75, 1.0));
}

#[test]
fn model_constructor_binary() {
    let binary = Model::builder().binary().build();
    let model = Model::builder().num_symbols(2).build();

    assert_eq!(binary.eof(), model.eof());
    assert_eq!(prob(&binary, 0), prob(&model, 0));
    assert_eq!(prob(&binary, 1), prob(&model, 1));
}

#[test]
fn model_constructor_from_counts() {
    let mut model = Model::builder().num_symbols(4).eof(EOFKind::End).build();

    let counts_model = Model::builder().counts(vec![1; 4]).eof(EOFKind::End).build();

    assert_eq!(3, model.eof());
    assert_eq!(prob(&model, 0), prob(&counts_model, 0));
    assert_eq!(prob(&model, 1), prob(&counts_model, 1));
    assert_eq!(prob(&model, 2), prob(&counts_model, 2));
    assert_eq!(prob(&model, 3), prob(&counts_model, 3));

    model.update_symbol(0);
    model.update_symbol(0);
    model.update_symbol(0);
    model.update_symbol(2);
    model.update_symbol(2);

    let counts_model = Model::builder().counts(vec![4, 1, 3, 1]).eof(EOFKind::End).build();
    assert_eq!(prob(&model, 0), prob(&counts_model, 0));
    assert_eq!(prob(&model, 1), prob(&counts_model, 1));
    assert_eq!(prob(&model, 2), prob(&counts_model, 2));
    assert_eq!(prob(&model, 3), prob(&counts_model, 3));
}

#[test]
fn model_probability_min() {
    let model = Model::builder().num_symbols(2315).build();
    assert_eq!(model.probability(0), (model.low(0), model.high(0)));
}

#[test]
fn model_probability_high() {
    let count = 1_000;

    let model = Model::builder().num_symbols(count + 1).build();

    assert_eq!(model.probability(count), (model.low(count), model.high(count)));
}

#[test]
fn model_update_symbols() {
    let mut model = Model::builder().num_symbols(4).eof(EOFKind::End).build();

    model.update_symbol(2);
    model.update_symbol(2);
    model.update_symbol(2);
    model.update_symbol(3);
    model.update_symbol(1);
    model.update_symbol(3);

    assert_eq!(prob(&model, 0), (0.0, 0.1));
    assert_eq!(prob(&model, 1), (0.1, 0.3));
    assert_eq!(prob(&model, 2), (0.3, 0.7));
    assert_eq!(prob(&model, 3), (0.7, 1.0));
}

/// Without an intervening update, repeated probability queries return
/// identical pairs.
#[test]
fn probability_idempotent_between_updates() {
    let mut model = Model::builder().num_symbols(7).eof(EOFKind::End).build();
    model.update_symbol(3);
    for s in 0..7 {
        let first = model.probability(s);
        let second = model.probability(s);
        assert_eq!(first, second);
        assert_eq!(model.total_count(), model.total_count());
    }
}

/// The library's Fenwick layout and prefix sums agree with the fenwick
/// crate's array implementation on the same counts and updates.
#[test]
fn fenwick_matches_fenwick_crate() {
    let counts: Vec<u32> = vec![4, 1, 3, 1, 9, 2, 7, 5, 1, 6];
    let mut model = Model::builder().counts(counts.clone()).build();

    let mut reference = vec![0u32; counts.len()];
    for (i, c) in counts.iter().enumerate() {
        fenwick::array::update(&mut reference, i, *c);
    }
    assert_eq!(model.fenwick_counts(), &reference);

    for step in 0..counts.len() {
        let symbol = ((step * 7) % counts.len()) as u32;
        model.update_symbol(symbol);
        fenwick::array::update(&mut reference, symbol as usize, 1);
    }
    assert_eq!(model.fenwick_counts(), &reference);
    for i in 0..counts.len() {
        assert_eq!(model.high(i as u32), fenwick::array::prefix_sum(&reference, i));
    }
}
