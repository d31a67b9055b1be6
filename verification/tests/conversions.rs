use twang::codec::{float_bits_to_int, int_to_float_bits};

fn int_to_float(i: i32) -> f32 {
    f32::from_bits(int_to_float_bits(i))
}

fn float_to_int(f: f32) -> i32 {
    float_bits_to_int(f.to_bits())
}

#[test]
fn conversions() {
    // Since there are more negative than positive integers, zeros are not
    // an exact match between integer and floating point
    assert_eq!(int_to_float(i32::MAX), 1.0);
    assert_eq!(int_to_float(i32::MAX / 2), 0.5);
    assert_eq!(int_to_float(i32::MAX / 4), 0.25);
    assert_eq!(int_to_float(4), 4.1909516e-9);
    assert_eq!(int_to_float(3), 3.259629e-9);
    assert_eq!(int_to_float(2), 2.3283064e-9);
    assert_eq!(int_to_float(1), 1.3969839e-9);
    assert_eq!(int_to_float(0), 2.0f32.powf(-31.0));
    assert_eq!(int_to_float(-1), -2.0f32.powf(-31.0));
    assert_eq!(int_to_float(-2), -1.3969839e-9);
    assert_eq!(int_to_float(-3), -2.3283064e-9);
    assert_eq!(int_to_float(-4), -3.259629e-9);
    assert_eq!(int_to_float(-5), -4.1909516e-9);
    assert_eq!(int_to_float(i32::MIN / 4), -0.25);
    assert_eq!(int_to_float(i32::MIN / 2), -0.5);
    assert_eq!(int_to_float(i32::MIN), -1.0);

    assert_eq!(float_to_int(0.0), 0);
    assert_eq!(float_to_int(-1.0), i32::MIN);
    assert_eq!(float_to_int(-0.5), i32::MIN / 2);
    assert_eq!(float_to_int(-0.25), i32::MIN / 4);
    assert_eq!(float_to_int(3.259629e-9), 3);
    assert_eq!(float_to_int(1.3969839e-9), 1);
    assert_eq!(float_to_int(2.0f32.powf(-31.0)), 0);
    assert_eq!(float_to_int(-2.0f32.powf(-31.0)), -1);
    assert_eq!(float_to_int(-1.3969839e-9), -2);
    assert_eq!(float_to_int(-3.259629e-9), -4);
    assert_eq!(float_to_int(0.25), i32::MAX / 4);
    assert_eq!(float_to_int(0.5), i32::MAX / 2);
    assert_eq!(float_to_int(1.0), i32::MAX);
}

#[test]
fn round_trip_exact_at_scale_extremes() {
    assert_eq!(float_to_int(int_to_float(i32::MAX)), i32::MAX);
    assert_eq!(float_to_int(int_to_float(i32::MIN)), i32::MIN);
}

#[test]
fn round_trip_lossy_near_smallest_magnitudes() {
    // int_to_float(4) is exactly 4.1909516e-9, but converting that float
    // back floods the bits below the leading one and yields 7, not 4.
    assert_eq!(int_to_float(4), 4.1909516e-9);
    assert_eq!(float_to_int(int_to_float(4)), 7);
    assert_ne!(float_to_int(int_to_float(4)), 4);
    // The other direction is lossy as well: the float nearest to
    // int_to_float(2) converts to 3.
    assert_eq!(float_to_int(2.3283064e-9), 3);
    assert_ne!(float_to_int(2.3283064e-9), 2);
}

#[test]
fn zero_and_silence() {
    assert_eq!(float_to_int(0.0), 0);
    assert_eq!(float_to_int(-0.0), 0);
    // Every magnitude under 2^-31 underflows to silence.
    assert_eq!(float_to_int(1.0e-10), 0);
    assert_eq!(float_to_int(-1.0e-10), 0);
}

#[test]
fn out_of_range_floats_saturate() {
    assert_eq!(float_to_int(2.0), i32::MAX);
    assert_eq!(float_to_int(-2.0), i32::MIN);
}
