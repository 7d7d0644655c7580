use ltspice_raw::decode::decode;
use ltspice_raw::header::Header;
use ltspice_raw::numbers::native_byte_order;
use ltspice_raw::parse::parse;
use ltspice_raw::simulation::check_source;
use ltspice_raw::{
    ByteOrder, Encoding, Flags, Mode, ParseError, SourceFault, SourceFile, SteppedSimulation,
    SteppedVariable, Value, VariableClass,
};
use std::path::PathBuf;

const TRANSIENT: &str = "Title: * two steps\nDate: Thu Nov 23 10:09:33 2023\nPlotname: Transient Analysis\nFlags: real forward stepped\nNo. Variables: 2\nNo. Points: 6\nOffset: 0.0000000000000000e+000\nCommand: Linear Technology Corporation LTspice XVII\nVariables:\n\t0\ttime\ttime\n\t1\tV(out)\tvoltage\nBinary:\n";

fn source(contents: Vec<u8>) -> SourceFile {
    SourceFile { exists: true, is_file: true, extension: Some(String::from("raw")), contents }
}

fn reals(samples: &Vec<Value>) -> Vec<f64> {
    samples.iter().map(|v| f64::from_bits(v.real_bits)).collect()
}

fn transient_file(header: &str, xs: &[f64], ys: &[f32]) -> Vec<u8> {
    let mut file: Vec<u8> = header.as_bytes().to_vec();
    for (x, y) in xs.iter().zip(ys.iter()) {
        file.extend_from_slice(&x.to_ne_bytes());
        file.extend_from_slice(&y.to_ne_bytes());
    }
    file
}

fn two_step_file() -> Vec<u8> {
    transient_file(
        TRANSIENT,
        &[0.0, 1.0, 2.0, 0.0, 1.0, 2.0],
        &[0.5, 1.5, 2.5, 3.5, 4.5, 5.5],
    )
}

fn header_of(mode: Mode, flags: Vec<Flags>, points: u32, names: &[&str]) -> Header {
    Header {
        mode,
        flags,
        points,
        variables: names.len() as u32 + 1,
        declared: names
            .iter()
            .map(|n| SteppedVariable { class: VariableClass::Voltage, name: String::from(*n) })
            .collect(),
        date: None,
        unknown: Vec::new(),
    }
}

#[test]
fn two_steps_of_three_points() {
    let mut simulation = SteppedSimulation::new(PathBuf::from("two_steps.raw"));
    assert_eq!(simulation.reload(&source(two_step_file())), Ok(()));
    let stats = simulation.get_stats();
    assert_eq!(stats.points, 6);
    assert_eq!(stats.variables, 2);
    assert_eq!(stats.steps, 2);
    assert_eq!(stats.step_size, 3);
    assert_eq!(reals(simulation.get("x", Some(0)).unwrap()), vec![0.0, 1.0, 2.0]);
    assert_eq!(reals(simulation.get("x", Some(1)).unwrap()), vec![0.0, 1.0, 2.0]);
    assert!(simulation.get("x", Some(2)).is_none());
    assert_eq!(reals(simulation.get("V(out)", Some(0)).unwrap()), vec![0.5, 1.5, 2.5]);
    assert_eq!(reals(simulation.get("V(out)", Some(1)).unwrap()), vec![3.5, 4.5, 5.5]);
    assert!(simulation.get("V(out)", Some(2)).is_none());
    assert_eq!(reals(simulation.get_x().unwrap()), vec![0.0, 1.0, 2.0]);
    assert_eq!(reals(simulation.get("V(out)", None).unwrap()), vec![0.5, 1.5, 2.5]);
}

#[test]
fn reload_reads_the_header() {
    let mut simulation = SteppedSimulation::new(PathBuf::from("two_steps.raw"));
    assert_eq!(simulation.reload(&source(two_step_file())), Ok(()));
    assert_eq!(simulation.encoding(), Encoding::UTF8);
    assert_eq!(simulation.mode(), Mode::Transient);
    assert_eq!(simulation.flags(), &vec![Flags::Real, Flags::Stepped]);
    let variables = simulation.get_variables();
    assert_eq!(variables.len(), 1);
    assert_eq!(variables[0].name, "V(out)");
    assert_eq!(variables[0].class, VariableClass::Voltage);
    assert!(simulation.unknown_fields().is_empty());
    assert_eq!(simulation.path(), &PathBuf::from("two_steps.raw"));
}

#[test]
fn new_simulation_holds_nothing() {
    let simulation = SteppedSimulation::new(PathBuf::from("nothing.raw"));
    assert!(simulation.get_x().is_none());
    assert!(simulation.get("x", Some(0)).is_none());
    assert!(simulation.get("V(out)", None).is_none());
    assert_eq!(simulation.get_stats().points, 0);
    assert_eq!(simulation.get_stats().variables, 0);
    assert_eq!(simulation.get_stats().steps, 0);
    assert_eq!(simulation.get_stats().step_size, 0);
    assert!(simulation.get_variables().is_empty());
    assert_eq!(simulation.mode(), Mode::Transient);
    assert_eq!(simulation.encoding(), Encoding::UTF8);
    assert!(simulation.flags().is_empty());
}

#[test]
fn new_simulation_is_dated_by_the_clock() {
    let simulation = SteppedSimulation::new(PathBuf::from("nothing.raw"));
    // The clock of any machine that runs this stands behind the year 2020.
    assert!(simulation.date().seconds > 1_577_836_800);
    assert!(simulation.date().nanoseconds < 2_000_000_000);
}

#[test]
fn points_are_the_sum_of_the_step_lengths() {
    let xs: [f64; 9] = [0.0, 1.0, 2.0, 0.0, 1.0, 0.0, 1.0, 2.0, 3.0];
    let ys: [f32; 9] = [10.0, 11.0, 12.0, 13.0, 14.0, 15.0, 16.0, 17.0, 18.0];
    let header = TRANSIENT.replace("No. Points: 6", "No. Points: 9");
    let mut simulation = SteppedSimulation::new(PathBuf::from("steps.raw"));
    assert_eq!(simulation.reload(&source(transient_file(&header, &xs, &ys))), Ok(()));
    let mut total: usize = 0;
    let mut step: u16 = 0;
    while let Some(samples) = simulation.get("x", Some(step)) {
        total += samples.len();
        step += 1;
    }
    assert_eq!(step, 3);
    assert_eq!(total, 9);
    assert_eq!(simulation.get_stats().points, 9);
}

#[test]
fn variables_follow_the_steps_of_x() {
    let xs: [f64; 9] = [0.0, 1.0, 2.0, 0.0, 1.0, 0.0, 1.0, 2.0, 3.0];
    let ys: [f32; 9] = [10.0, 11.0, 12.0, 13.0, 14.0, 15.0, 16.0, 17.0, 18.0];
    let header = TRANSIENT.replace("No. Points: 6", "No. Points: 9");
    let mut simulation = SteppedSimulation::new(PathBuf::from("steps.raw"));
    assert_eq!(simulation.reload(&source(transient_file(&header, &xs, &ys))), Ok(()));
    assert_eq!(reals(simulation.get("x", Some(0)).unwrap()), vec![0.0, 1.0, 2.0]);
    assert_eq!(reals(simulation.get("x", Some(1)).unwrap()), vec![0.0, 1.0]);
    assert_eq!(reals(simulation.get("x", Some(2)).unwrap()), vec![0.0, 1.0, 2.0, 3.0]);
    assert_eq!(reals(simulation.get("V(out)", Some(0)).unwrap()), vec![10.0, 11.0, 12.0]);
    assert_eq!(reals(simulation.get("V(out)", Some(1)).unwrap()), vec![13.0, 14.0]);
    assert_eq!(
        reals(simulation.get("V(out)", Some(2)).unwrap()),
        vec![15.0, 16.0, 17.0, 18.0]
    );
    assert!(simulation.get("V(out)", Some(3)).is_none());
    // The last closed step has two points; nine points make four such steps.
    assert_eq!(simulation.get_stats().step_size, 2);
    assert_eq!(simulation.get_stats().steps, 4);
}

#[test]
fn single_step_stream_stays_whole() {
    // Known assumption of the step detection: a step begins where the first
    // sample of the current step comes again. Here it never does.
    let xs: [f64; 6] = [0.0, 1.0, 2.0, 3.0, 4.0, 5.0];
    let ys: [f32; 6] = [0.5, 1.5, 2.5, 3.5, 4.5, 5.5];
    let mut simulation = SteppedSimulation::new(PathBuf::from("one_step.raw"));
    assert_eq!(simulation.reload(&source(transient_file(TRANSIENT, &xs, &ys))), Ok(()));
    assert_eq!(reals(simulation.get("x", Some(0)).unwrap()), xs.to_vec());
    assert!(simulation.get("x", Some(1)).is_none());
    assert_eq!(
        reals(simulation.get("V(out)", Some(0)).unwrap()),
        vec![0.5, 1.5, 2.5, 3.5, 4.5, 5.5]
    );
    assert!(simulation.get("V(out)", Some(1)).is_none());
    // No step was closed: the size is the length of the payload, 6 * (8 + 4).
    assert_eq!(simulation.get_stats().steps, 0);
    assert_eq!(simulation.get_stats().step_size, 72);
}

#[test]
fn a_repeated_later_sample_is_no_boundary() {
    // Only the first sample of the current step counts.
    let xs: [f64; 6] = [0.0, 1.0, 1.0, 2.0, 2.0, 3.0];
    let ys: [f32; 6] = [0.0; 6];
    let mut simulation = SteppedSimulation::new(PathBuf::from("one_step.raw"));
    assert_eq!(simulation.reload(&source(transient_file(TRANSIENT, &xs, &ys))), Ok(()));
    assert_eq!(reals(simulation.get("x", None).unwrap()), xs.to_vec());
    assert!(simulation.get("x", Some(1)).is_none());
}

#[test]
fn steps_compare_samples_as_numbers() {
    // The two zeros are equal; a NaN equals nothing.
    let header = header_of(Mode::Transient, Vec::new(), 4, &[]);
    let mut payload: Vec<u8> = Vec::new();
    for x in [0.0f64, 1.0, -0.0, 1.0] {
        payload.extend_from_slice(&x.to_le_bytes());
    }
    let decoded = decode(&header, &payload, ByteOrder::LittleEndian).unwrap();
    assert_eq!(decoded.data.x.len(), 2);
    assert_eq!(decoded.data.x[1][0].real_bits, (-0.0f64).to_bits());

    let mut payload: Vec<u8> = Vec::new();
    for x in [f64::NAN, f64::NAN, 1.0, f64::NAN] {
        payload.extend_from_slice(&x.to_le_bytes());
    }
    let decoded = decode(&header, &payload, ByteOrder::LittleEndian).unwrap();
    assert_eq!(decoded.data.x.len(), 1);
    assert_eq!(decoded.data.x[0].len(), 4);
    assert_eq!(decoded.steps, 0);
}

#[test]
fn complex_samples_bit_for_bit() {
    let points: [(f64, f64); 3] = [(1.0e3, 0.0), (2.0e3, 0.0), (4.0e3, 0.0)];
    let first: [(f64, f64); 3] = [(0.25, -0.5), (-1.75, 3.0e-9), (6.02e23, -1.0e-300)];
    let second: [(f64, f64); 3] = [(-0.0, 0.0), (f64::INFINITY, 1.0), (5.0e-324, f64::MIN)];
    let mut payload: Vec<u8> = Vec::new();
    for i in 0..3 {
        for (re, im) in [points[i], first[i], second[i]] {
            payload.extend_from_slice(&re.to_ne_bytes());
            payload.extend_from_slice(&im.to_ne_bytes());
        }
    }
    assert_eq!(payload.len(), 3 * 3 * 16);
    let header = header_of(Mode::AC, Vec::new(), 3, &["V(a)", "V(b)"]);
    let decoded = decode(&header, &payload, native_byte_order()).unwrap();
    assert_eq!(decoded.data.x.len(), 1);
    assert_eq!(decoded.data.series.len(), 2);
    for i in 0..3 {
        assert_eq!(decoded.data.x[0][i].real_bits, points[i].0.to_bits());
        assert_eq!(decoded.data.x[0][i].imaginary_bits, points[i].1.to_bits());
        assert_eq!(decoded.data.series[0][0][i].real_bits, first[i].0.to_bits());
        assert_eq!(decoded.data.series[0][0][i].imaginary_bits, first[i].1.to_bits());
        assert_eq!(decoded.data.series[1][0][i].real_bits, second[i].0.to_bits());
        assert_eq!(decoded.data.series[1][0][i].imaginary_bits, second[i].1.to_bits());
    }
}

#[test]
fn complex_mode_from_a_whole_file() {
    let header = "Title: * ac\nPlotname:AC Analysis\nFlags: complex forward log\nNo. Variables: 2\nNo. Points: 2\nVariables:\n\t0\tfrequency\tfrequency\n\t1\tV(out)\tvoltage\nBinary:\n";
    let mut file: Vec<u8> = header.as_bytes().to_vec();
    for (f, re, im) in [(10.0f64, 0.5f64, -0.25f64), (100.0, 0.125, 8.0)] {
        file.extend_from_slice(&f.to_ne_bytes());
        file.extend_from_slice(&0.0f64.to_ne_bytes());
        file.extend_from_slice(&re.to_ne_bytes());
        file.extend_from_slice(&im.to_ne_bytes());
    }
    let mut simulation = SteppedSimulation::new(PathBuf::from("ac.raw"));
    assert_eq!(simulation.reload(&source(file)), Ok(()));
    assert_eq!(simulation.mode(), Mode::AC);
    let out = simulation.get("V(out)", None).unwrap();
    assert_eq!(out.len(), 2);
    assert_eq!(f64::from_bits(out[0].real_bits), 0.5);
    assert_eq!(f64::from_bits(out[0].imaginary_bits), -0.25);
    assert_eq!(f64::from_bits(out[1].real_bits), 0.125);
    assert_eq!(f64::from_bits(out[1].imaginary_bits), 8.0);
    assert_eq!(reals(simulation.get_x().unwrap()), vec![10.0, 100.0]);
}

#[test]
fn fft_is_a_complex_mode() {
    let header = header_of(Mode::FFT, vec![Flags::Double], 1, &["V(a)"]);
    let payload: Vec<u8> = vec![0; 32];
    assert!(decode(&header, &payload, ByteOrder::LittleEndian).is_ok());
    let payload: Vec<u8> = vec![0; 16];
    assert_eq!(
        decode(&header, &payload, ByteOrder::LittleEndian).err(),
        Some(ParseError::LayoutMismatch)
    );
}

#[test]
fn double_flag_widens_the_dependent_variables() {
    let header = header_of(Mode::Transient, vec![Flags::Real, Flags::Double], 2, &["V(a)"]);
    let mut payload: Vec<u8> = Vec::new();
    for (x, y) in [(0.0f64, 0.1f64), (1.0, 0.2)] {
        payload.extend_from_slice(&x.to_be_bytes());
        payload.extend_from_slice(&y.to_be_bytes());
    }
    let decoded = decode(&header, &payload, ByteOrder::BigEndian).unwrap();
    assert_eq!(reals(&decoded.data.series[0][0]), vec![0.1, 0.2]);
    assert_eq!(decoded.data.series[0][0][0].imaginary_bits, 0);
}

#[test]
fn single_precision_samples_become_doubles() {
    let header = header_of(Mode::Transient, Vec::new(), 3, &["V(a)", "I(R1)"]);
    let mut payload: Vec<u8> = Vec::new();
    let rows: [(f64, f32, f32); 3] =
        [(0.0, 0.1, -1.0e-38), (1.0, 3.4e38, 1.0e-45), (2.0, -0.0, 7.25)];
    for (x, a, b) in rows {
        payload.extend_from_slice(&x.to_le_bytes());
        payload.extend_from_slice(&a.to_le_bytes());
        payload.extend_from_slice(&b.to_le_bytes());
    }
    let decoded = decode(&header, &payload, ByteOrder::LittleEndian).unwrap();
    for i in 0..3 {
        assert_eq!(decoded.data.series[0][0][i].real_bits, (rows[i].1 as f64).to_bits());
        assert_eq!(decoded.data.series[1][0][i].real_bits, (rows[i].2 as f64).to_bits());
        assert_eq!(decoded.data.series[0][0][i].imaginary_bits, 0);
    }
}

#[test]
fn both_byte_orders_decode() {
    let mut little: Vec<u8> = TRANSIENT.as_bytes().to_vec();
    let mut big: Vec<u8> = TRANSIENT.as_bytes().to_vec();
    let xs: [f64; 6] = [0.0, 1.0, 2.0, 0.0, 1.0, 2.0];
    for (i, x) in xs.iter().enumerate() {
        let y: f32 = i as f32 + 0.5;
        little.extend_from_slice(&x.to_le_bytes());
        little.extend_from_slice(&y.to_le_bytes());
        big.extend_from_slice(&x.to_be_bytes());
        big.extend_from_slice(&y.to_be_bytes());
    }
    let a = parse(&little, ByteOrder::LittleEndian).unwrap();
    let b = parse(&big, ByteOrder::BigEndian).unwrap();
    assert_eq!(a.decoded.steps, 2);
    assert_eq!(b.decoded.steps, 2);
    assert_eq!(reals(&a.decoded.data.x[1]), vec![0.0, 1.0, 2.0]);
    assert_eq!(reals(&b.decoded.data.x[1]), vec![0.0, 1.0, 2.0]);
    assert_eq!(reals(&a.decoded.data.series[0][1]), vec![3.5, 4.5, 5.5]);
    assert_eq!(reals(&b.decoded.data.series[0][1]), vec![3.5, 4.5, 5.5]);
    // Read in the other order, the same bytes give other numbers.
    let c = parse(&little, ByteOrder::BigEndian).unwrap();
    assert_ne!(reals(&c.decoded.data.x[0])[1], 1.0);
}

#[test]
fn a_utf16_file_is_decoded() {
    let mut file: Vec<u8> = Vec::new();
    for unit in TRANSIENT.encode_utf16() {
        file.extend_from_slice(&unit.to_le_bytes());
    }
    let header_bytes: usize = file.len();
    assert_eq!(header_bytes, 2 * TRANSIENT.len());
    let xs: [f64; 6] = [0.0, 1.0, 2.0, 0.0, 1.0, 2.0];
    for (i, x) in xs.iter().enumerate() {
        file.extend_from_slice(&x.to_ne_bytes());
        file.extend_from_slice(&(i as f32).to_ne_bytes());
    }
    // Read as UTF-8 the header shows no marker: a zero byte parts the letters.
    assert!(!String::from_utf8_lossy(&file).contains("Binary"));
    assert!(!String::from_utf8_lossy(&file).contains("Values"));
    let mut simulation = SteppedSimulation::new(PathBuf::from("wide.raw"));
    assert_eq!(simulation.reload(&source(file)), Ok(()));
    assert_eq!(simulation.encoding(), Encoding::UTF16);
    assert_eq!(simulation.get_stats().points, 6);
    assert_eq!(simulation.get_stats().steps, 2);
    assert_eq!(simulation.get_variables()[0].name, "V(out)");
    assert_eq!(reals(simulation.get("x", Some(1)).unwrap()), vec![0.0, 1.0, 2.0]);
    assert_eq!(reals(simulation.get("V(out)", Some(1)).unwrap()), vec![3.0, 4.0, 5.0]);
}

#[test]
fn invalid_sources_are_refused() {
    let mut simulation = SteppedSimulation::new(PathBuf::from("missing.raw"));
    let missing = SourceFile {
        exists: false,
        is_file: false,
        extension: Some(String::from("raw")),
        contents: Vec::new(),
    };
    assert_eq!(
        simulation.reload(&missing),
        Err(ParseError::InvalidSource(SourceFault::Missing))
    );
    let directory = SourceFile {
        exists: true,
        is_file: false,
        extension: Some(String::from("raw")),
        contents: Vec::new(),
    };
    assert_eq!(
        simulation.reload(&directory),
        Err(ParseError::InvalidSource(SourceFault::NotAFile))
    );
    let text = SourceFile {
        exists: true,
        is_file: true,
        extension: Some(String::from("txt")),
        contents: two_step_file(),
    };
    assert_eq!(
        simulation.reload(&text),
        Err(ParseError::InvalidSource(SourceFault::WrongExtension))
    );
    let bare = SourceFile { exists: true, is_file: true, extension: None, contents: two_step_file() };
    assert_eq!(
        simulation.reload(&bare),
        Err(ParseError::InvalidSource(SourceFault::WrongExtension))
    );
    let upper = SourceFile {
        exists: true,
        is_file: true,
        extension: Some(String::from("RAW")),
        contents: two_step_file(),
    };
    assert_eq!(
        simulation.reload(&upper),
        Err(ParseError::InvalidSource(SourceFault::WrongExtension))
    );
    assert!(simulation.get_x().is_none());
}

#[test]
fn source_checks_come_in_order() {
    assert_eq!(check_source(true, true, Some("raw")), Ok(()));
    assert_eq!(
        check_source(false, false, None),
        Err(ParseError::InvalidSource(SourceFault::Missing))
    );
    assert_eq!(
        check_source(false, true, Some("txt")),
        Err(ParseError::InvalidSource(SourceFault::Missing))
    );
    assert_eq!(
        check_source(true, false, Some("txt")),
        Err(ParseError::InvalidSource(SourceFault::NotAFile))
    );
    assert_eq!(
        check_source(true, true, Some("")),
        Err(ParseError::InvalidSource(SourceFault::WrongExtension))
    );
    assert_eq!(
        check_source(true, true, Some("raw ")),
        Err(ParseError::InvalidSource(SourceFault::WrongExtension))
    );
}

#[test]
fn undecodable_header_is_an_error() {
    let mut simulation = SteppedSimulation::new(PathBuf::from("noise.raw"));
    let noise: Vec<u8> = vec![0x42, 0x69, 0x6E, 0x00, 0xFF, 0xFE, 0x10, 0x20, 0x30];
    assert_eq!(simulation.reload(&source(noise)), Err(ParseError::UndecodableHeader));
    assert_eq!(simulation.reload(&source(Vec::new())), Err(ParseError::UndecodableHeader));
    assert_eq!(
        parse(b"Title: nothing to see\n", ByteOrder::LittleEndian).err(),
        Some(ParseError::UndecodableHeader)
    );
}

#[test]
fn missing_boundary_marker_is_an_error() {
    let text = "Title: * ascii\nNo. Variables: 2\nNo. Points: 1\nVariables:\n\t0\ttime\ttime\nValues:\n0\t0.0\n\t1.0\n";
    assert_eq!(
        parse(text.as_bytes(), ByteOrder::LittleEndian).err(),
        Some(ParseError::MissingBoundaryMarker)
    );
    // The word alone is not the line that ends the header.
    assert_eq!(
        parse(b"Title: Binary files\n", ByteOrder::LittleEndian).err(),
        Some(ParseError::MissingBoundaryMarker)
    );
    assert_eq!(
        parse(b"No. Points: 0\nBinary: \n", ByteOrder::LittleEndian).err(),
        Some(ParseError::MissingBoundaryMarker)
    );
}

#[test]
fn malformed_counts_are_an_error() {
    for bad in ["No. Points: six", "No. Points: -6", "No. Points: 6.0", "No. Points:", "No. Points: 4294967296"] {
        let header = TRANSIENT.replace("No. Points: 6", bad);
        assert_eq!(
            parse(&transient_file(&header, &[0.0; 6], &[0.0; 6]), ByteOrder::LittleEndian).err(),
            Some(ParseError::MalformedNumericField),
            "{}",
            bad
        );
    }
    let header = TRANSIENT.replace("No. Variables: 2", "No. Variables: two");
    assert_eq!(
        parse(&transient_file(&header, &[0.0; 6], &[0.0; 6]), ByteOrder::LittleEndian).err(),
        Some(ParseError::MalformedNumericField)
    );
}

#[test]
fn counts_may_carry_a_plus_sign_and_white_space() {
    let header = TRANSIENT.replace("No. Points: 6", "No. Points: \t +6  ");
    let parsed = parse(&two_step_with(&header), ByteOrder::LittleEndian);
    assert_eq!(parsed.unwrap().header.points, 6);
}

fn two_step_with(header: &str) -> Vec<u8> {
    let mut file: Vec<u8> = header.as_bytes().to_vec();
    for (i, x) in [0.0f64, 1.0, 2.0, 0.0, 1.0, 2.0].iter().enumerate() {
        file.extend_from_slice(&x.to_le_bytes());
        file.extend_from_slice(&(i as f32).to_le_bytes());
    }
    file
}

#[test]
fn payload_length_must_match_exactly() {
    let good = two_step_file();
    assert!(parse(&good, native_byte_order()).is_ok());
    let mut long = good.clone();
    long.push(0);
    assert_eq!(parse(&long, native_byte_order()).err(), Some(ParseError::LayoutMismatch));
    let mut short = good.clone();
    short.pop();
    assert_eq!(parse(&short, native_byte_order()).err(), Some(ParseError::LayoutMismatch));
    let empty: Vec<u8> = TRANSIENT.as_bytes().to_vec();
    assert_eq!(parse(&empty, native_byte_order()).err(), Some(ParseError::LayoutMismatch));
}

#[test]
fn declared_variables_must_match_the_count() {
    // Three variables counted, one declared besides the independent one.
    let header = TRANSIENT.replace("No. Variables: 2", "No. Variables: 3");
    let mut file: Vec<u8> = header.as_bytes().to_vec();
    file.extend_from_slice(&vec![0u8; 6 * 16]);
    assert_eq!(parse(&file, native_byte_order()).err(), Some(ParseError::LayoutMismatch));
    // No variable counted at all.
    let header = "Title: * none\nBinary:\n";
    assert_eq!(
        parse(header.as_bytes(), native_byte_order()).err(),
        Some(ParseError::LayoutMismatch)
    );
}

#[test]
fn no_points_make_one_empty_step() {
    let header = TRANSIENT.replace("No. Points: 6", "No. Points: 0");
    let mut simulation = SteppedSimulation::new(PathBuf::from("empty.raw"));
    assert_eq!(simulation.reload(&source(header.as_bytes().to_vec())), Ok(()));
    assert_eq!(simulation.get_x().unwrap().len(), 0);
    assert!(simulation.get("x", Some(1)).is_none());
    assert_eq!(simulation.get("V(out)", None).unwrap().len(), 0);
    assert!(simulation.get("V(out)", Some(1)).is_none());
    assert_eq!(simulation.get_stats().steps, 0);
    assert_eq!(simulation.get_stats().step_size, 0);
}

#[test]
fn only_the_independent_variable() {
    let header = "No. Variables: 1\nNo. Points: 3\nVariables:\n\t0\ttime\ttime\nBinary:\n";
    let mut file: Vec<u8> = header.as_bytes().to_vec();
    for x in [1.0f64, 2.0, 3.0] {
        file.extend_from_slice(&x.to_ne_bytes());
    }
    let mut simulation = SteppedSimulation::new(PathBuf::from("x.raw"));
    assert_eq!(simulation.reload(&source(file)), Ok(()));
    assert_eq!(reals(simulation.get_x().unwrap()), vec![1.0, 2.0, 3.0]);
    assert!(simulation.get_variables().is_empty());
}

#[test]
fn a_failed_reload_changes_nothing() {
    let mut simulation = SteppedSimulation::new(PathBuf::from("two_steps.raw"));
    assert_eq!(simulation.reload(&source(two_step_file())), Ok(()));
    let date = simulation.date();
    let mut broken = two_step_file();
    broken.truncate(broken.len() - 5);
    assert_eq!(simulation.reload(&source(broken)), Err(ParseError::LayoutMismatch));
    assert_eq!(simulation.get_stats().points, 6);
    assert_eq!(simulation.get_stats().steps, 2);
    assert_eq!(reals(simulation.get("V(out)", Some(1)).unwrap()), vec![3.5, 4.5, 5.5]);
    assert_eq!(simulation.date(), date);
}

#[test]
fn reload_replaces_what_was_loaded() {
    let mut simulation = SteppedSimulation::new(PathBuf::from("two_steps.raw"));
    assert_eq!(simulation.reload(&source(two_step_file())), Ok(()));
    let header = "Plotname:DC Analysis\nFlags: double\nNo. Variables: 2\nNo. Points: 2\nVariables:\n\t0\tv1\tvoltage\n\t1\tI(R1)\tdevice_current\nBinary:\n";
    let mut file: Vec<u8> = header.as_bytes().to_vec();
    for (x, y) in [(0.0f64, 1.0e-3f64), (5.0, 2.0e-3)] {
        file.extend_from_slice(&x.to_ne_bytes());
        file.extend_from_slice(&y.to_ne_bytes());
    }
    assert_eq!(simulation.reload(&source(file)), Ok(()));
    assert_eq!(simulation.mode(), Mode::DC);
    assert_eq!(simulation.flags(), &vec![Flags::Double]);
    assert_eq!(simulation.get_variables().len(), 1);
    assert_eq!(simulation.get_variables()[0].class, VariableClass::Current);
    assert!(simulation.get("V(out)", None).is_none());
    assert_eq!(reals(simulation.get("I(R1)", None).unwrap()), vec![1.0e-3, 2.0e-3]);
    assert_eq!(simulation.get_stats().points, 2);
    assert_eq!(simulation.get_stats().steps, 0);
    assert_eq!(simulation.get_stats().step_size, 32);
}

#[test]
fn unknown_names_and_steps_are_not_found() {
    let mut simulation = SteppedSimulation::new(PathBuf::from("two_steps.raw"));
    assert_eq!(simulation.reload(&source(two_step_file())), Ok(()));
    assert!(simulation.get("V(in)", None).is_none());
    assert!(simulation.get("v(out)", None).is_none());
    assert!(simulation.get("", None).is_none());
    assert!(simulation.get("x", Some(u16::MAX)).is_none());
    assert!(simulation.get("V(out)", Some(2)).is_none());
}

#[test]
fn the_first_of_two_variables_of_one_name_is_found() {
    let header = header_of(Mode::Transient, Vec::new(), 1, &["V(a)", "V(a)"]);
    let mut payload: Vec<u8> = Vec::new();
    payload.extend_from_slice(&0.0f64.to_le_bytes());
    payload.extend_from_slice(&1.0f32.to_le_bytes());
    payload.extend_from_slice(&2.0f32.to_le_bytes());
    let decoded = decode(&header, &payload, ByteOrder::LittleEndian).unwrap();
    assert_eq!(reals(&decoded.data.series[0][0]), vec![1.0]);
    assert_eq!(reals(&decoded.data.series[1][0]), vec![2.0]);
    let text = "No. Variables: 3\nNo. Points: 1\nVariables:\n\t0\ttime\ttime\n\t1\tV(a)\tvoltage\n\t2\tV(a)\tvoltage\nBinary:\n";
    let mut file: Vec<u8> = text.as_bytes().to_vec();
    file.extend_from_slice(&payload);
    let mut simulation = SteppedSimulation::new(PathBuf::from("twice.raw"));
    // Only a little-endian machine reads these bytes as they were written.
    if native_byte_order() == ByteOrder::LittleEndian {
        assert_eq!(simulation.reload(&source(file)), Ok(()));
        assert_eq!(reals(simulation.get("V(a)", None).unwrap()), vec![1.0]);
    }
}

#[test]
fn unknown_fields_are_reported_by_name() {
    let header = TRANSIENT.replace("Offset:", "Solver: alternate\nOffset:");
    let mut simulation = SteppedSimulation::new(PathBuf::from("two_steps.raw"));
    let file = transient_file(&header, &[0.0, 1.0, 2.0, 0.0, 1.0, 2.0], &[0.0; 6]);
    assert_eq!(simulation.reload(&source(file)), Ok(()));
    assert_eq!(simulation.unknown_fields(), &vec![String::from("Solver")]);
    assert_eq!(simulation.get_stats().steps, 2);
}

#[test]
fn the_date_of_the_header_is_read() {
    let header = TRANSIENT.replace("Thu Nov 23 10:09:33 2023", "2017-11-25T22:34:50Z");
    let mut simulation = SteppedSimulation::new(PathBuf::from("dated.raw"));
    let file = transient_file(&header, &[0.0; 6], &[0.0; 6]);
    assert_eq!(simulation.reload(&source(file)), Ok(()));
    // The value of the field keeps the space behind the colon, so this is no
    // date to the parser; the clock stands in.
    assert!(simulation.date().seconds > 1_577_836_800);
    let header = TRANSIENT.replace(" Thu Nov 23 10:09:33 2023", "2017-11-25T22:34:50Z");
    let file = transient_file(&header, &[0.0; 6], &[0.0; 6]);
    assert_eq!(simulation.reload(&source(file)), Ok(()));
    assert_eq!(simulation.date().seconds, 1_511_649_290);
    assert_eq!(simulation.date().nanoseconds, 0);
}

#[test]
fn errors_in_words() {
    assert_eq!(
        ParseError::InvalidSource(SourceFault::Missing).message(),
        "File does not exist"
    );
    assert_eq!(
        ParseError::InvalidSource(SourceFault::NotAFile).message(),
        "The specified path is not a file."
    );
    assert_eq!(
        ParseError::InvalidSource(SourceFault::WrongExtension).message(),
        "The specified path is not a '.raw' file."
    );
    assert_eq!(ParseError::UndecodableHeader.message(), "Could not decode file.");
    assert_eq!(
        ParseError::MissingBoundaryMarker.message(),
        "The header is not closed by a 'Binary:' line."
    );
    assert_eq!(
        ParseError::MalformedNumericField.message(),
        "The number of points or variables is not a number."
    );
    assert_eq!(
        ParseError::LayoutMismatch.message(),
        "Mismatch between expected and actual SPICE data length."
    );
}

#[test]
fn detected_steps_are_whole_steps() {
    // Each step that the detection finds is one step when it is decoded alone.
    let xs: [f64; 12] = [3.0, 4.0, 3.0, 5.0, 5.0, 3.0, 3.0, 3.0, 7.0, 3.0, -0.0, 0.0];
    let mut payload: Vec<u8> = Vec::new();
    for x in xs {
        payload.extend_from_slice(&x.to_le_bytes());
    }
    let all = decode(&header_of(Mode::Transient, Vec::new(), 12, &[]), &payload, ByteOrder::LittleEndian)
        .unwrap();
    let lengths: Vec<usize> = all.data.x.iter().map(|step| step.len()).collect();
    assert_eq!(lengths, vec![2, 3, 1, 1, 2, 3]);
    for step in all.data.x.iter() {
        let mut bytes: Vec<u8> = Vec::new();
        for sample in step.iter() {
            bytes.extend_from_slice(&sample.real_bits.to_le_bytes());
        }
        let alone = decode(
            &header_of(Mode::Transient, Vec::new(), step.len() as u32, &[]),
            &bytes,
            ByteOrder::LittleEndian,
        )
        .unwrap();
        assert_eq!(alone.data.x.len(), 1);
        assert_eq!(reals(&alone.data.x[0]), reals(step));
    }
}

#[test]
fn a_sweep_that_returns_to_its_start_is_split() {
    // Known assumption: the detection cannot tell a new sweep from one sweep
    // that comes back to its first value. It takes both for a new step.
    let xs: [f64; 6] = [0.0, 0.5, 1.0, 0.5, 0.0, -0.5];
    let ys: [f32; 6] = [1.0, 2.0, 3.0, 4.0, 5.0, 6.0];
    let mut simulation = SteppedSimulation::new(PathBuf::from("sweep.raw"));
    assert_eq!(simulation.reload(&source(transient_file(TRANSIENT, &xs, &ys))), Ok(()));
    assert_eq!(reals(simulation.get("x", Some(0)).unwrap()), vec![0.0, 0.5, 1.0, 0.5]);
    assert_eq!(reals(simulation.get("x", Some(1)).unwrap()), vec![0.0, -0.5]);
    assert_eq!(reals(simulation.get("V(out)", Some(1)).unwrap()), vec![5.0, 6.0]);
    assert_eq!(simulation.get_stats().step_size, 4);
    assert_eq!(simulation.get_stats().steps, 1);
}
