use twang::osc::Hz;
use twang::synth::{Signal, Synth};

#[test]
fn time_basis_advances_one_tick_per_sample() {
    let mut synth = Synth::new();
    assert_eq!(synth.elapsed(), 0);
    for expected in 0..1000u64 {
        assert_eq!(synth.tick(), expected);
        assert_eq!(synth.elapsed(), expected + 1);
    }
}

#[test]
fn chained_operations_build_the_expression_tree() {
    // fc.freq(440).abs().gain(fc.freq(440).sine())
    let expr = Signal::freq(Hz(440)).abs().gain(Signal::freq(Hz(440)).sine());
    match expr {
        Signal::Gain(carrier, modulator) => {
            match *carrier {
                Signal::Abs(inner) => assert!(matches!(*inner, Signal::Freq(440))),
                other => panic!("carrier was {:?}", std::mem::discriminant(&other)),
            }
            match *modulator {
                Signal::Sine(inner) => assert!(matches!(*inner, Signal::Freq(440))),
                other => panic!("modulator was {:?}", std::mem::discriminant(&other)),
            }
        }
        other => panic!("expression was {:?}", std::mem::discriminant(&other)),
    }
}
