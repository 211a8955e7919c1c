use arcode::ArithmeticDecoder;
use arcode::ArithmeticEncoder;
use arcode::BinaryCoder;
use arcode::BitSink;
use arcode::BitSource;
use arcode::DecodeError;
use arcode::EOFKind;
use arcode::Model;
use arcode::SourceModelBuilder;

const SHERLOCK: &str = "To Sherlock Holmes she is always the woman. I have \
seldom heard him mention her under any other name. In his eyes she eclipses \
and predominates the whole of her sex. It was not that he felt any emotion \
akin to love for Irene Adler. All emotions, and that one particularly, were \
abhorrent to his cold, precise but admirably balanced mind. He was, I take \
it, the most perfect reasoning and observing machine that the world has \
seen, but as a lover he would have placed himself in a false position. He \
never spoke of the softer passions, save with a gibe and a sneer.";

/// Encodes bytes with an adaptive 8-bit model plus an appended EOF symbol.
fn encode_bytes(data: &[u8], precision: u64) -> Vec<u8> {
    let mut model = Model::builder().num_bits(8).eof(EOFKind::EndAddOne).build();
    let mut sink = BitSink::new();
    let mut encoder = ArithmeticEncoder::new(precision);

    for &sym in data {
        encoder.encode(sym as u32, &model, &mut sink);
        model.update_symbol(sym as u32);
    }

    encoder.encode(model.eof(), &model, &mut sink);
    encoder.finish_encode(&mut sink);
    sink.pad_to_byte();
    sink.to_bytes()
}

/// Decompresses what `encode_bytes` produced.
fn decode_bytes(data: &[u8], precision: u64) -> Result<Vec<u8>, DecodeError> {
    let mut model = Model::builder().num_bits(8).eof(EOFKind::EndAddOne).build();
    let mut source = BitSource::from_bytes(&data.to_vec());
    let mut decoder = ArithmeticDecoder::new(precision);
    let mut decompressed: Vec<u8> = vec![];
    let mut guard: usize = 0;

    while !decoder.finished() {
        let sym = decoder.decode(&model, &mut source)?;
        model.update_symbol(sym);
        decompressed.push(sym as u8);
        guard += 1;
        assert!(guard <= 10_000_000, "decode did not terminate");
    }

    decompressed.pop();
    Ok(decompressed)
}

#[test]
fn encoder_e2e() {
    let mut encoder = ArithmeticEncoder::new(30);
    let mut source_model = SourceModelBuilder::new().num_symbols(10).eof(EOFKind::End).build();
    let mut sink = BitSink::new();
    let to_encode: [u32; 5] = [7, 2, 2, 2, 7];
    for x in &to_encode {
        encoder.encode(*x, &source_model, &mut sink);
        source_model.update_symbol(*x);
    }
    encoder.encode(source_model.eof(), &source_model, &mut sink);
    encoder.finish_encode(&mut sink);
    sink.pad_to_byte();
    assert_eq!(sink.to_bytes(), vec![184, 96, 208]);
}

#[test]
fn decoder_e2e() {
    let input: Vec<u8> = vec![184, 96, 208];
    let mut source_model = SourceModelBuilder::new().num_symbols(10).eof(EOFKind::End).build();
    let mut output: Vec<u32> = Vec::new();
    let mut in_reader = BitSource::from_bytes(&input);

    let mut decoder = ArithmeticDecoder::new(30);
    while !decoder.finished() {
        let sym = decoder.decode(&source_model, &mut in_reader).unwrap();
        source_model.update_symbol(sym);
        if sym != source_model.eof() {
            output.push(sym)
        };
    }
    assert_eq!(output, &[7, 2, 2, 2, 7]);
}

#[test]
fn sherlock_e2e() {
    let sherlock_bytes = SHERLOCK.bytes().into_iter().collect::<Vec<u8>>();
    let compressed = encode_bytes(&sherlock_bytes, 48);
    let decompressed = decode_bytes(&compressed, 48).unwrap();

    assert_eq!(sherlock_bytes.len(), decompressed.len());
    sherlock_bytes.iter().zip(decompressed.iter()).enumerate().for_each(|(idx, (a, b))| {
        assert_eq!(a, b, "Found mismatch {} != {} at index {}", a, b, idx);
    });
    // A text this long must come out smaller than it went in.
    assert!(compressed.len() < sherlock_bytes.len());
}

#[test]
fn byte_round_trip() {
    let input = "Sherlock Holmes and the speckled band.".as_bytes();
    let compressed = encode_bytes(input, 48);
    let decompressed = decode_bytes(&compressed, 48).unwrap();
    assert_eq!(input.to_vec(), decompressed);
}

/// Round trips still work at both precision extremes. The low extreme needs
/// a model whose total stays within a quarter of the tiny coding space.
#[test]
fn precision_extremes() {
    // p = 8: quarter of the coding space is 64, so a 4-symbol adaptive model
    // fed 40 symbols stays within it.
    let mut model = Model::builder().num_symbols(4).eof(EOFKind::End).build();
    let mut sink = BitSink::new();
    let mut encoder = ArithmeticEncoder::new(8);
    let input: Vec<u32> = (0..40u32).map(|i| i % 3).collect();
    for &sym in &input {
        encoder.encode(sym, &model, &mut sink);
        model.update_symbol(sym);
    }
    encoder.encode(model.eof(), &model, &mut sink);
    encoder.finish_encode(&mut sink);
    sink.pad_to_byte();
    let compressed = sink.to_bytes();

    let mut model = Model::builder().num_symbols(4).eof(EOFKind::End).build();
    let mut source = BitSource::from_bytes(&compressed);
    let mut decoder = ArithmeticDecoder::new(8);
    let mut output: Vec<u32> = vec![];
    while !decoder.finished() {
        let sym = decoder.decode(&model, &mut source).unwrap();
        model.update_symbol(sym);
        if sym != model.eof() {
            output.push(sym);
        }
    }
    assert_eq!(input, output);

    // p = 48: the byte-alphabet round trip.
    let input = "precision at the other extreme".as_bytes();
    let compressed = encode_bytes(input, 48);
    assert_eq!(decode_bytes(&compressed, 48).unwrap(), input.to_vec());
}

/// A one-symbol-plus-EOF alphabet (only EOF will ever appear) encodes in
/// bounded bits and decodes correctly.
#[test]
fn eof_only_alphabet() {
    let mut model = Model::builder().num_symbols(2).eof(EOFKind::End).build();
    let mut sink = BitSink::new();
    let mut encoder = ArithmeticEncoder::new(30);
    encoder.encode(model.eof(), &model, &mut sink);
    encoder.finish_encode(&mut sink);
    sink.pad_to_byte();
    let compressed = sink.to_bytes();
    assert!(compressed.len() <= 2);

    let mut source = BitSource::from_bytes(&compressed);
    let mut decoder = ArithmeticDecoder::new(30);
    let mut decoded: Vec<u32> = vec![];
    while !decoder.finished() {
        let sym = decoder.decode(&model, &mut source).unwrap();
        model.update_symbol(sym);
        if sym != model.eof() {
            decoded.push(sym);
        }
    }
    assert!(decoded.is_empty());
}

/// A long run of one heavily repeated symbol converges to far below a
/// hundredth of a bit per symbol.
#[test]
fn single_symbol_run_rate() {
    let n: usize = 20_000;
    let mut model = Model::builder().num_symbols(2).eof(EOFKind::End).build();
    let mut sink = BitSink::new();
    let mut encoder = ArithmeticEncoder::new(32);
    for _ in 0..n {
        encoder.encode(0, &model, &mut sink);
        model.update_symbol(0);
    }
    encoder.encode(model.eof(), &model, &mut sink);
    encoder.finish_encode(&mut sink);
    sink.pad_to_byte();
    let compressed = sink.to_bytes();
    assert!(compressed.len() * 8 <= n / 100);

    let mut model = Model::builder().num_symbols(2).eof(EOFKind::End).build();
    let mut source = BitSource::from_bytes(&compressed);
    let mut decoder = ArithmeticDecoder::new(32);
    let mut count: usize = 0;
    while !decoder.finished() {
        let sym = decoder.decode(&model, &mut source).unwrap();
        model.update_symbol(sym);
        if sym != model.eof() {
            assert_eq!(sym, 0);
            count += 1;
        }
        assert!(count <= n);
    }
    assert_eq!(count, n);
}

/// After a successful encode, one `finish_encode` produces a stream whose
/// decode terminates exactly at the EOF symbol.
#[test]
fn decode_stops_at_eof() {
    let input = "terminates exactly at the EOF".as_bytes();
    let compressed = encode_bytes(input, 48);

    let mut model = Model::builder().num_bits(8).eof(EOFKind::EndAddOne).build();
    let mut source = BitSource::from_bytes(&compressed);
    let mut decoder = ArithmeticDecoder::new(48);
    let mut decoded: Vec<u8> = vec![];
    let mut saw_eof = false;
    while !decoder.finished() {
        let sym = decoder.decode(&model, &mut source).unwrap();
        model.update_symbol(sym);
        if sym == model.eof() {
            saw_eof = true;
        } else {
            assert!(!saw_eof);
            decoded.push(sym as u8);
        }
    }
    assert!(saw_eof);
    assert!(decoder.finished());
    assert_eq!(decoded, input.to_vec());
}

/// Input `[0,1,2,3] x 1000`, alphabet 5 with `End` EOF, precision 32: the
/// round trip succeeds and the output stays within five percent of the
/// Shannon bound of 8000 bits.
#[test]
fn uniform_adaptive_sanity() {
    let input: Vec<u32> = (0..4000u32).map(|i| i % 4).collect();
    let mut model = Model::builder().num_symbols(5).eof(EOFKind::End).build();
    let mut sink = BitSink::new();
    let mut encoder = ArithmeticEncoder::new(32);
    for &sym in &input {
        encoder.encode(sym, &model, &mut sink);
        model.update_symbol(sym);
    }
    encoder.encode(model.eof(), &model, &mut sink);
    encoder.finish_encode(&mut sink);
    sink.pad_to_byte();
    let compressed = sink.to_bytes();
    assert!(compressed.len() * 8 <= 8400);

    let mut model = Model::builder().num_symbols(5).eof(EOFKind::End).build();
    let mut source = BitSource::from_bytes(&compressed);
    let mut decoder = ArithmeticDecoder::new(32);
    let mut output: Vec<u32> = vec![];
    while !decoder.finished() {
        let sym = decoder.decode(&model, &mut source).unwrap();
        model.update_symbol(sym);
        if sym != model.eof() {
            output.push(sym);
        }
    }
    assert_eq!(input, output);
}

/// Encode `[0, 1, 2, 3, 4, 255, 65535]` through a 16-bit binary coder;
/// decoding with identical fresh submodels yields the same list.
#[test]
fn binary_coder_round_trip() {
    let values: [u32; 7] = [0, 1, 2, 3, 4, 255, 65535];
    let mut coder = BinaryCoder::new(16);
    let mut encoder = ArithmeticEncoder::new(48);
    let mut sink = BitSink::new();
    for &v in &values {
        coder.encode(&mut encoder, &mut sink, v);
    }
    encoder.finish_encode(&mut sink);
    sink.pad_to_byte();
    let compressed = sink.to_bytes();

    let mut coder = BinaryCoder::new(16);
    let mut decoder = ArithmeticDecoder::new(48);
    let mut source = BitSource::from_bytes(&compressed);
    let mut decoded: Vec<u32> = vec![];
    for _ in 0..values.len() {
        decoded.push(coder.decode(&mut decoder, &mut source).unwrap());
    }
    assert_eq!(decoded, values.to_vec());
}

/// Binary coder round trips across widths: every `v < 2^w` for small `w`.
#[test]
fn binary_coder_small_widths() {
    for w in 1..=8u32 {
        for v in 0..(1u32 << w) {
            let mut coder = BinaryCoder::new(w);
            let mut encoder = ArithmeticEncoder::new(32);
            let mut sink = BitSink::new();
            coder.encode(&mut encoder, &mut sink, v);
            encoder.finish_encode(&mut sink);
            sink.pad_to_byte();
            let compressed = sink.to_bytes();

            let mut coder = BinaryCoder::new(w);
            let mut decoder = ArithmeticDecoder::new(32);
            let mut source = BitSource::from_bytes(&compressed);
            assert_eq!(coder.decode(&mut decoder, &mut source).unwrap(), v);
        }
    }
}

/// A 257-symbol alphabet with 257 separate models; after each symbol `s` the
/// current model switches to `models[s]`. The decoder with the same swap
/// rule reproduces the input.
#[test]
fn context_switched_codec() {
    let input = "Sherlock Holmes.".as_bytes();
    let num_symbols: u32 = 257;

    let mut models: Vec<Model> = (0..num_symbols)
        .map(|_| Model::builder().num_symbols(num_symbols).eof(EOFKind::End).build())
        .collect();
    let mut encoder = ArithmeticEncoder::new(48);
    let mut sink = BitSink::new();
    let mut cur: usize = 0;
    for &b in input {
        encoder.encode(b as u32, &models[cur], &mut sink);
        models[cur].update_symbol(b as u32);
        cur = b as usize;
    }
    let eof = models[cur].eof();
    encoder.encode(eof, &models[cur], &mut sink);
    encoder.finish_encode(&mut sink);
    sink.pad_to_byte();
    let compressed = sink.to_bytes();

    let mut models: Vec<Model> = (0..num_symbols)
        .map(|_| Model::builder().num_symbols(num_symbols).eof(EOFKind::End).build())
        .collect();
    let mut decoder = ArithmeticDecoder::new(48);
    let mut source = BitSource::from_bytes(&compressed);
    let mut output: Vec<u8> = vec![];
    let mut cur: usize = 0;
    while !decoder.finished() {
        let sym = decoder.decode(&models[cur], &mut source).unwrap();
        if sym != models[cur].eof() {
            output.push(sym as u8);
        }
        models[cur].update_symbol(sym);
        cur = sym as usize;
    }
    assert_eq!(input.to_vec(), output);
}

/// Truncating a valid compressed stream by one byte makes `decode` terminate
/// with `UnexpectedEof` rather than loop or produce garbage forever.
#[test]
fn truncated_stream_errors() {
    let input = SHERLOCK.as_bytes();
    let compressed = encode_bytes(input, 48);
    let truncated = &compressed[..compressed.len() - 1];
    let result = decode_bytes(truncated, 48);
    assert_eq!(result, Err(DecodeError::UnexpectedEof));
}
