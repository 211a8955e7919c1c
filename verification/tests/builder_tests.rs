use arcode::EOFKind;
use arcode::Model;
use arcode::SourceModelBuilder;

fn model_eq(a: &Model, b: &Model) {
    assert_eq!(a.eof(), b.eof(), "EOF not equal");
    assert_eq!(a.counts(), b.counts(), "Counts not equal");
    assert_eq!(a.fenwick_counts(), b.fenwick_counts(), "fenwicks not equal");
    assert_eq!(a.total_count(), b.total_count(), "total not equal");
}

#[test]
fn num_symbols() {
    let sut = SourceModelBuilder::new().num_symbols(4).build();

    let reference = Model::from_values(vec![1, 1, 1, 1], vec![1, 2, 1, 4], 4, 4);

    model_eq(&reference, &sut);
}

#[test]
fn num_bits() {
    let sut = SourceModelBuilder::new().num_bits(2).build();

    let reference = Model::from_values(vec![1, 1, 1, 1], vec![1, 2, 1, 4], 4, 4);

    model_eq(&reference, &sut);
}

#[test]
fn counts() {
    let sut = SourceModelBuilder::new().counts(vec![4, 1, 3, 1]).build();

    let reference = Model::from_values(vec![4, 1, 3, 1], vec![4, 5, 3, 9], 9, 4);

    model_eq(&reference, &sut);
}

#[test]
fn binary() {
    let sut = SourceModelBuilder::new().binary().build();

    let reference = Model::from_values(vec![1, 1], vec![1, 2], 2, 2);

    model_eq(&reference, &sut);
}

#[test]
fn default_binary() {
    let sut = SourceModelBuilder::new().build();

    let reference = Model::from_values(vec![1, 1], vec![1, 2], 2, 2);

    model_eq(&reference, &sut);
}

#[test]
fn eof_end() {
    let sut = SourceModelBuilder::new().num_symbols(4).eof(EOFKind::End).build();

    let reference = Model::from_values(vec![1, 1, 1, 1], vec![1, 2, 1, 4], 4, 3);

    model_eq(&reference, &sut);
}

#[test]
fn eof_end_add() {
    let sut = SourceModelBuilder::new().num_symbols(4).eof(EOFKind::EndAddOne).build();

    let reference = Model::from_values(vec![1, 1, 1, 1, 1], vec![1, 2, 1, 4, 1], 5, 4);

    model_eq(&reference, &sut);
}

#[test]
fn eof_start() {
    let sut = SourceModelBuilder::new().num_symbols(4).eof(EOFKind::Start).build();

    let reference = Model::from_values(vec![1, 1, 1, 1], vec![1, 2, 1, 4], 4, 0);

    model_eq(&reference, &sut);
}

#[test]
fn eof_specify() {
    let sut = SourceModelBuilder::new().num_symbols(4).eof(EOFKind::Specify(2)).build();

    let reference = Model::from_values(vec![1, 1, 1, 1], vec![1, 2, 1, 4], 4, 2);

    model_eq(&reference, &sut);
}

#[test]
fn eof_none() {
    let sut = SourceModelBuilder::new().num_symbols(4).eof(EOFKind::NoEof).build();

    let reference = Model::from_values(vec![1, 1, 1, 1], vec![1, 2, 1, 4], 4, 4);

    model_eq(&reference, &sut);
}

#[test]
fn eof_default() {
    let sut = SourceModelBuilder::new().num_symbols(4).build();

    let reference = Model::from_values(vec![1, 1, 1, 1], vec![1, 2, 1, 4], 4, 4);

    model_eq(&reference, &sut);
}
