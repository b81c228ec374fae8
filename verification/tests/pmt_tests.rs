use futuresdr::pmt::Pmt;
use futuresdr::pmt::f32_eq_exec;
use futuresdr::pmt::f64_eq_exec;
use futuresdr::pmt::str_eq;

#[test]
fn equivalent_scalars() {
    assert!(Pmt::U32(7).equivalent(&Pmt::U32(7)));
    assert!(!Pmt::U32(7).equivalent(&Pmt::U32(8)));
    assert!(!Pmt::U32(7).equivalent(&Pmt::U64(7)));
    assert!(Pmt::Null.equivalent(&Pmt::Null));
    assert!(Pmt::Bool(true).equivalent(&Pmt::Bool(true)));
    assert!(!Pmt::Bool(true).equivalent(&Pmt::Bool(false)));
}

#[test]
fn equivalent_nan_is_not_equal_to_itself() {
    let nan = f32::NAN.to_bits();
    assert!(!Pmt::F32(nan).equivalent(&Pmt::F32(nan)));
    let nan64 = f64::NAN.to_bits();
    assert!(!Pmt::F64(nan64).equivalent(&Pmt::F64(nan64)));
}

#[test]
fn equivalent_signed_zeros_are_equal() {
    let pz = 0.0f32.to_bits();
    let nz = (-0.0f32).to_bits();
    assert_ne!(pz, nz);
    assert!(Pmt::F32(pz).equivalent(&Pmt::F32(nz)));
    let pz64 = 0.0f64.to_bits();
    let nz64 = (-0.0f64).to_bits();
    assert!(Pmt::F64(pz64).equivalent(&Pmt::F64(nz64)));
}

#[test]
fn f32_eq_exec_follows_ieee() {
    assert!(f32_eq_exec(1.5f32.to_bits(), 1.5f32.to_bits()));
    assert!(!f32_eq_exec(f32::NAN.to_bits(), 1.5f32.to_bits()));
    assert!(f64_eq_exec(2.5f64.to_bits(), 2.5f64.to_bits()));
}

#[test]
fn equivalent_strings_and_vectors() {
    assert!(Pmt::Str(String::from("hi")).equivalent(&Pmt::Str(String::from("hi"))));
    assert!(!Pmt::Str(String::from("hi")).equivalent(&Pmt::Str(String::from("ho"))));
    assert!(Pmt::VecU64(vec![1, 2, 3]).equivalent(&Pmt::VecU64(vec![1, 2, 3])));
    assert!(!Pmt::VecU64(vec![1, 2]).equivalent(&Pmt::VecU64(vec![1, 2, 3])));
    assert!(Pmt::Blob(vec![0xde, 0xad]).equivalent(&Pmt::Blob(vec![0xde, 0xad])));
}

#[test]
fn equivalent_nested() {
    let a = Pmt::VecPmt(vec![Pmt::U32(1), Pmt::Str(String::from("x"))]);
    let b = Pmt::VecPmt(vec![Pmt::U32(1), Pmt::Str(String::from("x"))]);
    let c = Pmt::VecPmt(vec![Pmt::U32(1), Pmt::Str(String::from("y"))]);
    assert!(a.equivalent(&b));
    assert!(!a.equivalent(&c));
}

#[test]
fn equivalent_maps() {
    let a = Pmt::MapStrPmt(vec![(String::from("k"), Pmt::U64(9))]);
    let b = Pmt::MapStrPmt(vec![(String::from("k"), Pmt::U64(9))]);
    let c = Pmt::MapStrPmt(vec![(String::from("k"), Pmt::U64(10))]);
    assert!(a.equivalent(&b));
    assert!(!a.equivalent(&c));
}

#[test]
fn map_get_finds_first_binding() {
    let m = Pmt::MapStrPmt(vec![
        (String::from("a"), Pmt::U32(1)),
        (String::from("b"), Pmt::U32(2)),
        (String::from("a"), Pmt::U32(3)),
    ]);
    assert_eq!(m.map_get("a"), Some(&Pmt::U32(1)));
    assert_eq!(m.map_get("b"), Some(&Pmt::U32(2)));
    assert_eq!(m.map_get("c"), None);
    assert_eq!(Pmt::Null.map_get("a"), None);
}

#[test]
fn str_eq_compares_by_characters() {
    assert!(str_eq("abc", "abc"));
    assert!(!str_eq("abc", "abd"));
    assert!(!str_eq("abc", "ab"));
    assert!(str_eq("", ""));
}
