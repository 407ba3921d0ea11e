use std::sync::{
    atomic::{AtomicUsize, Ordering},
    Arc,
};

use truc::runtime::{convert_vec_in_place, try_convert_vec_in_place, VecElementConversionResult};

struct CountDrop1 {
    value: usize,
    dropped: Arc<AtomicUsize>,
}

impl Drop for CountDrop1 {
    fn drop(&mut self) {
        self.dropped.fetch_add(1, Ordering::Relaxed);
    }
}

struct CountDrop1000 {
    #[allow(unused)]
    value: usize,
    dropped: Arc<AtomicUsize>,
}

impl Drop for CountDrop1000 {
    fn drop(&mut self) {
        self.dropped.fetch_add(1000, Ordering::Relaxed);
    }
}

#[test]
fn test_drop_all_input_and_reduced_output() {
    let dropped1 = Arc::new(AtomicUsize::new(0));
    let dropped2 = Arc::new(AtomicUsize::new(0));

    let mut input = Vec::new();
    for value in 0..32 {
        input.push(CountDrop1 {
            value,
            dropped: dropped1.clone(),
        });
    }

    let output = convert_vec_in_place::<CountDrop1, CountDrop1000, _>(input, |rec, _| {
        if rec.value % 4 == 0 {
            VecElementConversionResult::Converted(CountDrop1000 {
                value: rec.value,
                dropped: dropped2.clone(),
            })
        } else {
            VecElementConversionResult::Abandonned
        }
    });

    assert_eq!(output.len(), 8);

    // All 1s are dropped
    assert_eq!(dropped1.load(Ordering::Relaxed), 32);

    drop(output);

    // All 8 converted 2s are dropped
    assert_eq!(dropped2.load(Ordering::Relaxed), 8000);
}

#[test]
fn conversion_keeps_the_order_and_passes_the_last_converted() {
    let output = convert_vec_in_place::<u32, i32, _>(vec![1, 2, 3, 4], |value, last| {
        if let Some(last) = last {
            *last += 100;
        }
        VecElementConversionResult::Converted(value as i32)
    });
    assert_eq!(output, vec![101, 102, 103, 4]);
}

#[test]
fn conversion_stops_at_the_first_error() {
    let result = try_convert_vec_in_place::<u32, i32, _, String>(vec![1, 2, 3], |value, _| {
        if value == 2 {
            Err(format!("bad {}", value))
        } else {
            Ok(VecElementConversionResult::Converted(value as i32))
        }
    });
    assert_eq!(result, Err("bad 2".to_owned()));
}
