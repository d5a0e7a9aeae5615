use wasm_stack_tables::analysis::{analysis_pc, ProgramCounter};
use wasm_stack_tables::view::{parse_v1_format, Label, ViewError};

fn le(n: u32) -> [u8; 4] {
    n.to_le_bytes()
}

fn frame(types: &[u8], values: &[u8], labels: u32, label_bytes: &[u8]) -> Vec<u8> {
    let mut data = vec![];
    data.extend(le(7));
    data.extend(le(3));
    data.extend(le(0x1234));
    data.extend(le(types.len() as u32));
    data.extend(types);
    data.extend(values);
    data.extend(le(labels));
    data.extend(label_bytes);
    data
}

#[test]
fn frame_with_values_and_labels_is_read() {
    let mut labels = vec![];
    for n in 0..12u32 {
        labels.extend(le(100 + n));
    }
    let data = frame(
        &[1, 2, 0, 1],
        &[5, 0, 0, 0, 0xff, 0xff, 0xff, 0xff, 0xff, 0xff, 0xff, 0xff, 0xfe, 0xff, 0xff, 0xff],
        2,
        &labels,
    );
    let parsed = parse_v1_format(&data).unwrap();
    assert_eq!(parsed.pc, Some((7, 10_000_000_000)));
    assert_eq!(parsed.return_address, Some((3, 0x1234)));
    assert_eq!(parsed.locals, None);
    assert_eq!(parsed.type_stack, Some(vec![1, 2, 0, 1]));
    assert_eq!(parsed.value_stack, Some(vec![5, -1, 0, -2]));
    assert_eq!(parsed.label_stack, Some(vec![100, 106]));
}

#[test]
fn labels_past_the_end_are_zeros() {
    let data = frame(&[], &[], 3, &[9, 0, 0, 0, 8, 0, 0, 0, 7, 0]);
    let parsed = parse_v1_format(&data).unwrap();
    assert_eq!(parsed.type_stack, Some(vec![]));
    assert_eq!(parsed.value_stack, Some(vec![]));
    assert_eq!(parsed.label_stack, Some(vec![9, 0, 0]));
}

#[test]
fn frame_that_ends_early_is_refused() {
    let data = frame(&[1, 1], &[1, 0, 0, 0, 2, 0, 0, 0], 0, &[]);
    assert!(parse_v1_format(&data).is_ok());
    for n in 0..data.len() {
        assert_eq!(parse_v1_format(&data[..n]).err(), Some(ViewError::UnexpectedEnd), "{}", n);
    }
}

#[test]
fn value_of_unknown_width_is_refused() {
    let data = frame(&[3], &[0; 12], 0, &[]);
    assert_eq!(parse_v1_format(&data).err(), Some(ViewError::UnsupportedLength(12)));
    let data = frame(&[3], &[0; 7], 0, &[]);
    assert_eq!(parse_v1_format(&data).err(), Some(ViewError::UnexpectedEnd));
    let data = frame(&[255], &[0; 1020], 0, &[]);
    assert_eq!(parse_v1_format(&data).err(), Some(ViewError::UnsupportedLength(1020)));
}

#[test]
fn label_keeps_its_six_numbers() {
    let label = Label { begin_addr: 1, target_addr: 2, sp: 3, tsp: 4, cell_num: 5, count: 6 };
    assert_eq!(label.clone(), label);
    assert_eq!(
        (label.begin_addr, label.target_addr, label.sp, label.tsp, label.cell_num, label.count),
        (1, 2, 3, 4, 5, 6)
    );
}

#[test]
fn program_counter_is_two_numbers() {
    let buf = [0x04, 0x03, 0x02, 0x01, 0x0d, 0x0c, 0x0b, 0x0a, 0xff];
    assert_eq!(
        analysis_pc(&buf),
        ProgramCounter { size: 9, fidx: 0x0102_0304, offset: 0x0a0b_0c0d }
    );
}
