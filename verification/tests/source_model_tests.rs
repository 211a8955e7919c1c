use arcode::EOFKind::End;
use arcode::Model;
use arcode::SourceModelBuilder;

fn prob(model: &Model, symbol: u32) -> (f64, f64) {
    let (lo, hi) = model.probability(symbol);
    let total = model.total_count() as f64;
    (lo as f64 / total, hi as f64 / total)
}

#[test]
fn source_model_constructor() {
    let model = SourceModelBuilder::new().num_symbols(4).eof(End).build();

    assert_eq!(3, model.eof());
    assert_eq!(prob(&model, 0), (0.0, 0.25));
    assert_eq!(prob(&model, 1), (0.25, 0.5));
    assert_eq!(prob(&model, 2), (0.5, 0.75));
    assert_eq!(prob(&model, 3), (0.75, 1.0));
}

#[test]
fn source_model_constructor_new() {
    let model = SourceModelBuilder::new().num_symbols(4).build();
    assert_eq!(4, model.eof());
    assert_eq!(prob(&model, 0), (0.0, 0.25));
    assert_eq!(prob(&model, 1), (0.25, 0.5));
    assert_eq!(prob(&model, 2), (0.5, 0.75));
    assert_eq!(prob(&model, 3), (0.75, 1.0));
}

#[test]
fn source_model_constructor_binary() {
    let binary = SourceModelBuilder::new().binary().build();
    let model = SourceModelBuilder::new().num_symbols(2).build();

    assert_eq!(binary.eof(), model.eof());
    assert_eq!(prob(&binary, 0), prob(&model, 0));
    assert_eq!(prob(&binary, 1), prob(&model, 1));
}

#[test]
fn source_model_constructor_from_counts() {
    let mut model = SourceModelBuilder::new().num_symbols(4).eof(End).build();

    let counts_model = SourceModelBuilder::new().counts(vec![1; 4]).eof(End).build();

    assert_eq!(3, model.eof());
    assert_eq!(prob(&model, 0), prob(&counts_model, 0));
    assert_eq!(prob(&model, 1), prob(&counts_model, 1));
    assert_eq!(prob(&model, 2), prob(&counts_model, 2));
    assert_eq!(prob(&model, 3), prob(&counts_model, 3));

    model.update_symbol(0);
    model.update_symbol(0);
    model.update_symbol(0);
    model.update_symbol(2);
    model.update_symbol(2);

    let counts_model = SourceModelBuilder::new().counts(vec![4, 1, 3, 1]).eof(End).build();
    assert_eq!(prob(&model, 0), prob(&counts_model, 0));
    assert_eq!(prob(&model, 1), prob(&counts_model, 1));
    assert_eq!(prob(&model, 2), prob(&counts_model, 2));
    assert_eq!(prob(&model, 3), prob(&counts_model, 3));
}

#[test]
fn source_model_probability_min() {
    let model = SourceModelBuilder::new().num_symbols(2315).build();
    assert_eq!(model.probability(0), (model.low(0), model.high(0)));
}

#[test]
fn source_model_probability_high() {
    let count = 1_000;

    let model = SourceModelBuilder::new().num_symbols(count + 1).build();

    assert_eq!(model.probability(count), (model.low(count), model.high(count)));
}

#[test]
fn source_model_update_symbols() {
    let mut model = SourceModelBuilder::new().num_symbols(4).eof(End).build();

    model.update_symbol(2);
    model.update_symbol(2);
    model.update_symbol(2);
    model.update_symbol(3);
    model.update_symbol(1);
    model.update_symbol(3);

    assert_eq!(prob(&model, 0), (0.0, 0.1));
    assert_eq!(prob(&model, 1), (0.1, 0.3));
    assert_eq!(prob(&model, 2), (0.3, 0.7));
    assert_eq!(prob(&model, 3), (0.7, 1.0));
}
