use load_dump::err::ErrorKind;
use load_dump::ext_io::Dump;
use load_dump::sample::Sample;
use load_dump::sample::SampleEnum;
use load_dump::stream::Sink;
use load_dump::stream::Source;

use rand::thread_rng;
use rand::Rng;

fn get_sample() -> Sample {
    let mut rng = thread_rng();

    Sample {
        some_box_arr: (0..20).map(|_| rng.gen()).collect(),
        some_enum_arr: [
            SampleEnum::One,
            SampleEnum::Struct {
                f1: rng.gen(),
                f2: "some string".to_owned(),
            },
            SampleEnum::Tuple(rng.gen(), rng.gen(), Box::new(SampleEnum::One)),
        ],
        some_vec: vec!["one".into(), "two".into(), "three".into()],
    }
}

#[test]
fn test_dump_load() {
    // Get an instance of Sample from somewhere
    let og_inst = get_sample();
    let mut buf = Sink::new();

    buf.dump(&og_inst).unwrap();

    // Read the contents back from the written bytes
    let mut src = Source::new(buf.into_vec());
    let retrieved_inst: Sample = src.load().unwrap();

    // The reconstructed instance and the original one will be the same
    assert!(og_inst == retrieved_inst);
}

fn dumped<D: load_dump::ext_io::Dump>(v: &D) -> Vec<u8> {
    let mut sink = Sink::new();
    sink.dump(v).unwrap();
    sink.into_vec()
}

#[test]
fn fixed_width_is_independent_of_magnitude() {
    assert_eq!(dumped(&1u32).len(), 4);
    assert_eq!(dumped(&2147483647u32).len(), 4);
    assert_eq!(dumped(&0u8).len(), 1);
    assert_eq!(dumped(&255u8).len(), 1);
    assert_eq!(dumped(&1u16).len(), 2);
    assert_eq!(dumped(&1u64).len(), 8);
    assert_eq!(dumped(&1u128).len(), 16);
    assert_eq!(dumped(&-1i8).len(), 1);
    assert_eq!(dumped(&-1i16).len(), 2);
    assert_eq!(dumped(&-1i32).len(), 4);
    assert_eq!(dumped(&-1i64).len(), 8);
    assert_eq!(dumped(&-1i128).len(), 16);
}

#[test]
fn scalar_bytes_are_little_endian() {
    assert_eq!(dumped(&0x01020304u32), vec![4, 3, 2, 1]);
    assert_eq!(dumped(&-1i8), vec![0xff]);
    assert_eq!(dumped(&-2i32), vec![0xfe, 0xff, 0xff, 0xff]);
    assert_eq!(dumped(&0x0102u16), vec![2, 1]);
    let mut expected = vec![9u8];
    expected.extend(std::iter::repeat(0u8).take(15));
    assert_eq!(dumped(&9u128), expected);
}

fn round_trips_u128(v: u128) -> u128 {
    let mut src = Source::new(dumped(&v));
    src.load().unwrap()
}

fn round_trips_i128(v: i128) -> i128 {
    let mut src = Source::new(dumped(&v));
    src.load().unwrap()
}

#[test]
fn scalar_round_trips_at_extremes() {
    let mut src = Source::new(dumped(&u8::MAX));
    assert_eq!(src.load::<u8>().unwrap(), u8::MAX);
    let mut src = Source::new(dumped(&u16::MAX));
    assert_eq!(src.load::<u16>().unwrap(), u16::MAX);
    let mut src = Source::new(dumped(&u32::MAX));
    assert_eq!(src.load::<u32>().unwrap(), u32::MAX);
    let mut src = Source::new(dumped(&u64::MAX));
    assert_eq!(src.load::<u64>().unwrap(), u64::MAX);
    let mut src = Source::new(dumped(&i8::MIN));
    assert_eq!(src.load::<i8>().unwrap(), i8::MIN);
    let mut src = Source::new(dumped(&i16::MIN));
    assert_eq!(src.load::<i16>().unwrap(), i16::MIN);
    let mut src = Source::new(dumped(&i32::MIN));
    assert_eq!(src.load::<i32>().unwrap(), i32::MIN);
    let mut src = Source::new(dumped(&i64::MIN));
    assert_eq!(src.load::<i64>().unwrap(), i64::MIN);
    let mut src = Source::new(dumped(&0u8));
    assert_eq!(src.load::<u8>().unwrap(), 0u8);
    let mut src = Source::new(dumped(&-1i64));
    assert_eq!(src.load::<i64>().unwrap(), -1i64);
    assert_eq!(round_trips_u128(u128::MAX), u128::MAX);
    assert_eq!(round_trips_i128(i128::MIN), i128::MIN);
    assert_eq!(round_trips_i128(i128::MAX), i128::MAX);
}

#[test]
fn bool_loading_tolerates_nonzero() {
    let mut src = Source::new(vec![0x07]);
    let b: bool = src.load().unwrap();
    assert!(b);

    let mut src = Source::new(vec![0x00]);
    let b: bool = src.load().unwrap();
    assert!(!b);

    assert_eq!(dumped(&true), vec![0x01]);
    assert_eq!(dumped(&false), vec![0x00]);
}

#[test]
fn text_is_nul_terminated() {
    assert_eq!(dumped(&"abc".to_string()), vec![0x61, 0x62, 0x63, 0x00]);
    assert_eq!(dumped(&"".to_string()), vec![0x00]);
}

#[test]
fn text_loading_stops_at_first_zero() {
    let mut src = Source::new(vec![0x61, 0x62, 0x00, 0x71]);
    let s: String = src.load().unwrap();
    assert_eq!(s, "ab");
    // the byte after the terminator belongs to the next field
    let next: u8 = src.load().unwrap();
    assert_eq!(next, 0x71);
}

#[test]
fn text_rejects_invalid_utf8() {
    let mut src = Source::new(vec![0xff, 0xfe, 0x00]);
    let r: Result<String, load_dump::err::Error> = src.load();
    assert_eq!(r.unwrap_err().kind, ErrorKind::InvalidUtf8);
}

#[test]
fn text_without_terminator_fails_as_a_read() {
    let mut src = Source::new(vec![0x61, 0x62]);
    let r: Result<String, load_dump::err::Error> = src.load();
    assert_eq!(r.unwrap_err().kind, ErrorKind::FileRead);
}

#[test]
fn truncated_scalar_fails_as_a_read() {
    let mut src = Source::new(vec![0x01, 0x02]);
    let r: Result<u32, load_dump::err::Error> = src.load();
    assert_eq!(r.unwrap_err().kind, ErrorKind::FileRead);
}

#[test]
fn sequence_loading_fails_fast() {
    // a stream declaring 5 strings, where the 3rd holds invalid UTF-8
    let mut bytes = vec![5, 0, 0, 0, 0, 0, 0, 0];
    bytes.extend([0x61, 0x00]); // "a"
    bytes.extend([0x62, 0x00]); // "b"
    bytes.extend([0xff, 0x00]); // malformed
    bytes.extend([0x64, 0x00]); // "d"
    bytes.extend([0x65, 0x00]); // "e"
    let mut src = Source::new(bytes);
    let r: Result<Vec<String>, load_dump::err::Error> = src.load();
    // exactly one error; no partial vector is returned
    assert_eq!(r.unwrap_err().kind, ErrorKind::InvalidUtf8);
}

#[test]
fn failed_decoder_stays_exhausted() {
    // 5 booleans declared, but only 2 bytes of elements follow
    let mut bytes = vec![5, 0, 0, 0, 0, 0, 0, 0];
    bytes.extend([0x01, 0x00]);
    let mut src = Source::new(bytes);
    let mut it = src.iter_array::<bool>().unwrap();
    assert!(matches!(it.next(&mut src), Some(Ok(true))));
    assert!(matches!(it.next(&mut src), Some(Ok(false))));
    // the third step fails once...
    assert!(matches!(it.next(&mut src), Some(Err(_))));
    // ...and from then on the decoder yields nothing, not even failures
    assert!(it.next(&mut src).is_none());
    assert!(it.next(&mut src).is_none());
}

#[test]
fn optional_values_carry_a_presence_flag() {
    assert_eq!(dumped(&None::<u32>), vec![0x00]);
    assert_eq!(dumped(&Some(5u32)), vec![0x01, 5, 0, 0, 0]);

    let mut src = Source::new(vec![0x01, 5, 0, 0, 0]);
    let v: Option<u32> = src.load().unwrap();
    assert_eq!(v, Some(5));

    // the presence flag tolerates any nonzero byte, like every boolean
    let mut src = Source::new(vec![0x07, 42]);
    let v: Option<u8> = src.load().unwrap();
    assert_eq!(v, Some(42));

    let mut src = Source::new(vec![0x00]);
    let v: Option<u8> = src.load().unwrap();
    assert_eq!(v, None);
}

#[test]
fn fixed_arrays_carry_no_count() {
    let arr: [u16; 3] = [1, 2, 3];
    assert_eq!(dumped(&arr), vec![1, 0, 2, 0, 3, 0]);
    let mut src = Source::new(vec![1, 0, 2, 0, 3, 0]);
    let back: [u16; 3] = src.load().unwrap();
    assert_eq!(back, arr);
}

#[test]
fn growable_sequences_carry_an_eight_byte_count() {
    let v: Vec<u16> = vec![1, 2, 3];
    assert_eq!(dumped(&v), vec![3, 0, 0, 0, 0, 0, 0, 0, 1, 0, 2, 0, 3, 0]);
    let mut src = Source::new(dumped(&v));
    let back: Vec<u16> = src.load().unwrap();
    assert_eq!(back, v);

    let b: Box<[i32]> = vec![7, -7].into_boxed_slice();
    let mut src = Source::new(dumped(&b));
    let back: Box<[i32]> = src.load().unwrap();
    assert_eq!(back, b);
}

#[test]
fn tuples_are_dumped_in_order_with_no_framing() {
    let t = (1u8, true, "hi".to_string());
    assert_eq!(dumped(&t), vec![1, 1, 0x68, 0x69, 0x00]);
    let mut src = Source::new(dumped(&t));
    let back: (u8, bool, String) = src.load().unwrap();
    assert_eq!(back, t);

    assert_eq!(dumped(&()), Vec::<u8>::new());
}

#[test]
fn recursive_enum_round_trips() {
    let e = SampleEnum::Tuple(12345678901234567890u128, true, Box::new(SampleEnum::One));
    let mut src = Source::new(dumped(&e));
    let back: SampleEnum = src.load().unwrap();
    assert!(back == e);

    let e = SampleEnum::Struct {
        f1: -42,
        f2: "deep".to_string(),
    };
    let mut src = Source::new(dumped(&e));
    let back: SampleEnum = src.load().unwrap();
    assert!(back == e);

    // the unit variant is just its 4-byte tag
    assert_eq!(dumped(&SampleEnum::One), vec![0, 0, 0, 0]);
}

#[test]
fn out_of_range_tag_is_reported() {
    let mut src = Source::new(vec![9, 0, 0, 0]);
    let r: Result<SampleEnum, load_dump::err::Error> = src.load();
    assert_eq!(r.unwrap_err().kind, ErrorKind::Unknown);
}

#[test]
fn aggregate_round_trips_exactly() {
    let og = Sample {
        some_box_arr: (0..20).collect::<Vec<i32>>().into_boxed_slice(),
        some_enum_arr: [
            SampleEnum::One,
            SampleEnum::Struct {
                f1: -1,
                f2: "middle".to_string(),
            },
            SampleEnum::Tuple(7, false, Box::new(SampleEnum::One)),
        ],
        some_vec: vec!["one".into(), "two".into(), "three".into()],
    };
    let mut sink = Sink::new();
    sink.dump(&og).unwrap();
    let mut src = Source::new(sink.into_vec());
    let back: Sample = src.load().unwrap();
    assert!(og == back);
}

#[test]
fn dumpable_text_has_no_nul() {
    assert!(load_dump::text::text_dumpable(&"plain".to_string()));
    assert!(!load_dump::text::text_dumpable(&"has\0nul".to_string()));
}

#[test]
fn write_iter_writes_count_then_elements() {
    let mut sink = Sink::new();
    let elems: [u8; 3] = [9, 8, 7];
    sink.write_iter(&elems).unwrap();
    assert_eq!(sink.into_vec(), vec![3, 0, 0, 0, 0, 0, 0, 0, 9, 8, 7]);
}

#[test]
fn skip_field_is_omitted_and_defaulted() {
    let r = load_dump::annotated::Record {
        id: 7,
        label: "x".to_string(),
        scratch: 99,
    };
    let bytes = dumped(&r);
    // 4 bytes of id, the label's byte, the terminator: no scratch on the wire
    assert_eq!(bytes, vec![7, 0, 0, 0, 0x78, 0x00]);
    let mut src = Source::new(bytes);
    let back: load_dump::annotated::Record = src.load().unwrap();
    assert_eq!(back.id, 7);
    assert_eq!(back.label, "x");
    // the skip field comes back as its type's zero value
    assert_eq!(back.scratch, 0);
}

#[test]
fn never_variant_tag_is_fatal_on_load() {
    // tag 2 is the never variant's declaration index
    let mut src = Source::new(vec![2, 0, 0, 0]);
    let r: Result<load_dump::annotated::Note, load_dump::err::Error> = src.load();
    assert_eq!(r.unwrap_err().kind, ErrorKind::Unknown);
}

#[test]
fn annotated_union_round_trips_outside_the_never_variant() {
    let n = load_dump::annotated::Note::Text {
        body: "hello".to_string(),
    };
    let mut src = Source::new(dumped(&n));
    let back: load_dump::annotated::Note = src.load().unwrap();
    assert!(matches!(back, load_dump::annotated::Note::Text { body } if body == "hello"));

    let mut src = Source::new(dumped(&load_dump::annotated::Note::Ping));
    let back: load_dump::annotated::Note = src.load().unwrap();
    assert!(matches!(back, load_dump::annotated::Note::Ping));
}
