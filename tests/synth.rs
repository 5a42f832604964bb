use keysynth::{
    admit_event, build_pitch_table, burst_frequency, fill_buffer, key_column, key_row,
    scancode_to_frequency, KeyEvent, KeyState, SampleClock, VoiceRegistry, BURST_HOLD_MS,
    MAX_SCANCODE,
};

fn hz(k: i32) -> f64 {
    let f = scancode_to_frequency(k);
    f.num as f64 / f.den as f64
}

#[test]
fn key_five_sounds_at_337_5_hz() {
    assert_eq!(key_row(5), 3);
    assert_eq!(key_column(5), 0);
    let f = scancode_to_frequency(5);
    assert_eq!(2 * f.num, 675 * f.den);
    assert!((hz(5) - 337.5).abs() < 1e-9);
}

#[test]
fn key_zero_uses_truncating_arithmetic() {
    assert_eq!(key_row(0), 4);
    // (0 - 5 + 4) % 13 is -1 with a truncating remainder
    assert_eq!(key_column(0), -5);
    let f = scancode_to_frequency(0);
    assert_eq!(f.num, 100 * 81 * 243);
    assert_eq!(f.den, 16 * 1024);
}

#[test]
fn keys_past_row_zero_truncate_toward_zero() {
    // 53 - 63 = -10, which divides to 0 rather than -1
    assert_eq!(key_row(63), 0);
    assert_eq!(key_column(63), 6);
    assert_eq!(key_row(54), 0);
    assert_eq!(key_row(53), 0);
    assert_eq!(key_row(40), 1);
}

#[test]
fn one_row_up_is_a_fifth() {
    let mut pairs: u32 = 0;
    for a in 0..MAX_SCANCODE as i32 {
        for b in 0..MAX_SCANCODE as i32 {
            if key_row(b) == key_row(a) + 1 && key_column(b) == key_column(a) {
                let (fa, fb) = (scancode_to_frequency(a), scancode_to_frequency(b));
                assert_eq!(2 * fb.num as u128 * fa.den as u128, 3 * fa.num as u128 * fb.den as u128);
                assert!((hz(b) / hz(a) - 1.5).abs() < 1e-9);
                pairs += 1;
            }
        }
    }
    assert!(pairs > 0);
}

#[test]
fn one_column_right_is_a_fourth() {
    let mut pairs: u32 = 0;
    for a in 0..MAX_SCANCODE as i32 {
        for b in 0..MAX_SCANCODE as i32 {
            if key_row(b) == key_row(a) && key_column(b) == key_column(a) + 1 {
                let (fa, fb) = (scancode_to_frequency(a), scancode_to_frequency(b));
                assert_eq!(3 * fb.num as u128 * fa.den as u128, 4 * fa.num as u128 * fb.den as u128);
                assert!((hz(b) / hz(a) - 4.0 / 3.0).abs() < 1e-9);
                pairs += 1;
            }
        }
    }
    assert!(pairs > 0);
}

#[test]
fn pitch_table_holds_every_key_and_repeats_the_mapper() {
    let table = build_pitch_table();
    assert_eq!(table.len(), MAX_SCANCODE);
    for k in 0..MAX_SCANCODE {
        assert_eq!(table[k], scancode_to_frequency(k as i32));
        assert_eq!(scancode_to_frequency(k as i32), scancode_to_frequency(k as i32));
        assert!(table[k].num > 0 && table[k].den > 0);
    }
}

#[test]
fn out_of_range_codes_are_discarded() {
    assert_eq!(
        admit_event(63, KeyState::Pressed),
        Some(KeyEvent { scancode: 63, state: KeyState::Pressed })
    );
    assert_eq!(admit_event(64, KeyState::Pressed), None);
    assert_eq!(admit_event(1000, KeyState::Released), None);
    assert_eq!(
        admit_event(0, KeyState::Released),
        Some(KeyEvent { scancode: 0, state: KeyState::Released })
    );
}

#[test]
fn activation_is_idempotent() {
    let mut voices = VoiceRegistry::new();
    assert_eq!(voices.len(), 0);
    voices.activate(7);
    voices.activate(7);
    assert_eq!(voices.len(), 1);
    assert!(voices.is_active(7));
    voices.deactivate(9);
    assert_eq!(voices.len(), 1);
    voices.deactivate(7);
    voices.deactivate(7);
    assert_eq!(voices.len(), 0);
    assert!(!voices.is_active(7));
}

#[test]
fn snapshot_lists_each_voice_once() {
    let mut voices = VoiceRegistry::new();
    voices.activate(3);
    voices.activate(12);
    voices.activate(3);
    let mut keys = voices.snapshot();
    keys.sort();
    assert_eq!(keys, vec![3, 12]);
}

#[test]
fn events_apply_in_order() {
    let mut voices = VoiceRegistry::new();
    let press = |k: usize| KeyEvent { scancode: k, state: KeyState::Pressed };
    let release = |k: usize| KeyEvent { scancode: k, state: KeyState::Released };
    voices.apply_events(&vec![press(4), release(4), press(5)]);
    assert!(!voices.is_active(4));
    assert!(voices.is_active(5));
    voices.apply_events(&vec![release(5), press(5)]);
    assert!(voices.is_active(5));
    voices.apply_event(release(5));
    assert!(!voices.is_active(5));
    assert_eq!(voices.len(), 0);
}

#[test]
fn sample_clock_wraps_at_the_rate() {
    let mut clock = SampleClock::new(3);
    assert_eq!(clock.advance(), 1);
    assert_eq!(clock.advance(), 2);
    assert_eq!(clock.advance(), 0);
    assert_eq!(clock.advance(), 1);
}

#[test]
fn no_voices_gives_silence_in_every_format() {
    let voices = VoiceRegistry::new();
    let mut clock = SampleClock::new(48000);
    let mut a = vec![5i16; 10];
    fill_buffer(&mut a, 2, &mut clock, &voices, 0i16, |_t: u32, _k: &Vec<usize>| 1i16);
    assert!(a.iter().all(|s| *s == 0));
    let mut b = vec![5u16; 9];
    fill_buffer(&mut b, 3, &mut clock, &voices, 32768u16, |_t: u32, _k: &Vec<usize>| 1u16);
    assert!(b.iter().all(|s| *s == 32768));
    let mut c = vec![0.5f32; 8];
    fill_buffer(&mut c, 1, &mut clock, &voices, 0.0f32, |_t: u32, _k: &Vec<usize>| 1.0f32);
    assert!(c.iter().all(|s| *s == 0.0));
    // 5 + 3 + 8 frames
    assert_eq!(clock.t, 16);
}

#[test]
fn every_channel_of_a_frame_gets_the_same_value() {
    let mut voices = VoiceRegistry::new();
    voices.activate(1);
    let mut clock = SampleClock::new(100);
    let mut data = vec![0u32; 7];
    fill_buffer(&mut data, 3, &mut clock, &voices, 0u32, |t: u32, k: &Vec<usize>| t * 10 + k.len() as u32);
    assert_eq!(data, vec![11, 11, 11, 21, 21, 21, 31]);
    assert_eq!(clock.t, 3);
    // the clock carries on from the previous buffer
    let mut more = vec![0u32; 2];
    fill_buffer(&mut more, 2, &mut clock, &voices, 0u32, |t: u32, k: &Vec<usize>| t * 10 + k.len() as u32);
    assert_eq!(more, vec![41, 41]);
}

#[test]
fn two_voices_are_averaged_not_summed() {
    let table = build_pitch_table();
    let rate: u32 = 48000;
    let mut voices = VoiceRegistry::new();
    voices.activate(5);
    voices.activate(18);
    let mix = |t: u32, keys: &Vec<usize>| -> f32 {
        let sum: f32 = keys
            .iter()
            .map(|k| {
                let f = table[*k].num as f32 / table[*k].den as f32;
                (t as f32 * f * std::f32::consts::TAU / rate as f32).sin()
            })
            .sum();
        sum / keys.len() as f32
    };
    let mut clock = SampleClock::new(rate);
    let mut data = vec![0.0f32; 4];
    fill_buffer(&mut data, 2, &mut clock, &voices, 0.0, mix);
    let fa = hz(5) as f32;
    let fb = hz(18) as f32;
    for (frame, t) in [(0usize, 1u32), (1, 2)] {
        let a = (t as f32 * fa * std::f32::consts::TAU / rate as f32).sin();
        let b = (t as f32 * fb * std::f32::consts::TAU / rate as f32).sin();
        let expected = (a + b) / 2.0;
        assert!((data[2 * frame] - expected).abs() < 1e-6);
        assert!((data[2 * frame] - (a + b)).abs() > 1e-6);
        assert!(data[2 * frame].abs() <= 1.0);
        assert_eq!(data[2 * frame], data[2 * frame + 1]);
    }
}

#[test]
fn releasing_the_only_voice_silences_the_next_frame() {
    let mut voices = VoiceRegistry::new();
    voices.apply_event(KeyEvent { scancode: 9, state: KeyState::Pressed });
    let mut clock = SampleClock::new(44100);
    let mut data = vec![0i32; 2];
    fill_buffer(&mut data, 2, &mut clock, &voices, 0i32, |_t: u32, _k: &Vec<usize>| 7i32);
    assert_eq!(data, vec![7, 7]);
    voices.apply_event(KeyEvent { scancode: 9, state: KeyState::Released });
    fill_buffer(&mut data, 2, &mut clock, &voices, 0i32, |_t: u32, _k: &Vec<usize>| 7i32);
    assert_eq!(data, vec![0, 0]);
}

#[test]
fn byte_sixteen_bursts_at_160_hz_for_50_ms() {
    assert_eq!(burst_frequency(0x10), 160);
    assert_eq!(burst_frequency(0), 0);
    assert_eq!(burst_frequency(255), 2550);
    assert_eq!(BURST_HOLD_MS, 50);
}

#[test]
fn empty_buffer_leaves_the_clock() {
    let voices = VoiceRegistry::new();
    let mut clock = SampleClock::new(10);
    let mut data: Vec<u8> = Vec::new();
    fill_buffer(&mut data, 2, &mut clock, &voices, 0u8, |_t: u32, _k: &Vec<usize>| 1u8);
    assert_eq!(clock.t, 0);
}
