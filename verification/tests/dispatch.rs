use grumpkin_msm::group::{Curve, Jacobian};
use grumpkin_msm::msm::{
    finish, indexed_msm, indexed_with_context, init, msm, msm_aux, status, with, with_context,
    CudaMSMContext, Fault, Launch, MSMContext,
};
use grumpkin_msm::oracle::{route, Availability, Route, CROSSOVER};
use std::cell::Cell;

const BIG: usize = (1 << 16) + 1;

/// A handle that counts how often it is released.
struct Table<'c>(&'c Cell<usize>);

impl Drop for Table<'_> {
    fn drop(&mut self) {
        self.0.set(self.0.get() + 1);
    }
}

/// A context as it stands after an upload that recorded `recorded` points.
fn resident(points: &[u8], recorded: usize) -> MSMContext<'_, u8, u32> {
    let (context, upload) = init::<u8, u32>(points, Availability::Available);
    assert!(upload);
    context
        .attach(0, CudaMSMContext { context: Some(7), npoints: recorded })
        .unwrap()
}

#[test]
fn crossover_is_two_to_the_sixteenth() {
    assert_eq!(CROSSOVER, 65536);
}

#[test]
fn availability_starts_from_the_override() {
    assert_eq!(Availability::new(true), Availability::ForcedOff);
    assert_eq!(Availability::new(false), Availability::Unknown);
}

#[test]
fn probe_is_wanted_only_from_the_crossover_and_without_override() {
    assert!(Availability::Unknown.needs_probe(CROSSOVER));
    assert!(Availability::Unknown.needs_probe(usize::MAX));
    assert!(!Availability::Unknown.needs_probe(CROSSOVER - 1));
    assert!(!Availability::ForcedOff.needs_probe(CROSSOVER));
    assert!(!Availability::Available.needs_probe(CROSSOVER));
}

#[test]
fn probe_never_lifts_the_override() {
    assert_eq!(Availability::ForcedOff.probed(true), Availability::ForcedOff);
    assert_eq!(Availability::ForcedOff.probed(false), Availability::ForcedOff);
    assert_eq!(Availability::Unknown.probed(true), Availability::Available);
    assert_eq!(Availability::Unknown.probed(false), Availability::Unknown);
    assert_eq!(Availability::Available.probed(false), Availability::Unknown);
    assert!(Availability::Available.available());
    assert!(!Availability::Unknown.available());
    assert!(!Availability::ForcedOff.available());
}

#[test]
fn route_goes_to_the_accelerator_from_the_crossover_on() {
    assert_eq!(route(CROSSOVER, Availability::Available), Route::Accelerator);
    assert_eq!(route(CROSSOVER - 1, Availability::Available), Route::Host);
    assert_eq!(route(CROSSOVER, Availability::Unknown), Route::Host);
    assert_eq!(route(usize::MAX, Availability::ForcedOff), Route::Host);
    assert_eq!(route(0, Availability::Available), Route::Host);
}

#[test]
fn forced_off_routes_like_no_device_above_the_crossover() {
    let points = vec![0u8; BIG];
    let scalars = vec![0u16; BIG];
    let forced = msm(&points, &scalars, Availability::new(true).probed(true));
    let absent = msm(&points, &scalars, Availability::new(false).probed(false));
    assert_eq!(forced, Ok(Launch::Host { npoints: BIG }));
    assert_eq!(forced, absent);
    assert_eq!(
        msm(&points, &scalars, Availability::new(false).probed(true)),
        Ok(Launch::Accelerator { npoints: BIG, nscalars: BIG, indexed: false })
    );
}

#[test]
fn msm_length_mismatch_is_a_fault() {
    let points = [0u8; 4];
    for availability in [Availability::Unknown, Availability::Available, Availability::ForcedOff] {
        assert_eq!(msm(&points, &[1u16; 3], availability), Err(Fault::LengthMismatch));
        assert_eq!(msm(&points, &[1u16; 5], availability), Err(Fault::LengthMismatch));
        assert_eq!(msm(&points, &[0u16; 0], availability), Err(Fault::LengthMismatch));
    }
    let many = vec![0u8; BIG];
    assert_eq!(msm(&many, &[1u16; 3], Availability::Available), Err(Fault::LengthMismatch));
}

#[test]
fn msm_sizes_on_the_host() {
    for n in [1usize, 1024, 1 << 13] {
        let points = vec![0u8; n];
        let scalars = vec![0u16; n];
        assert_eq!(
            msm(&points, &scalars, Availability::Available),
            Ok(Launch::Host { npoints: n })
        );
    }
}

#[test]
fn msm_of_nothing_is_a_fault() {
    assert_eq!(msm(&[0u8; 0], &[0u16; 0], Availability::Unknown), Err(Fault::EmptyBatch));
}

#[test]
fn msm_aux_indexed_checks_scalars_against_indices() {
    let points = vec![0u8; BIG];
    let scalars = [0u16; 3];
    assert_eq!(
        msm_aux(&points, &scalars, Some(&[0u32, 1]), Availability::Available),
        Err(Fault::LengthMismatch)
    );
    assert_eq!(
        msm_aux(&points, &scalars, Some(&[5u32, 1, 70000]), Availability::Available),
        Ok(Launch::Accelerator { npoints: BIG, nscalars: 3, indexed: true })
    );
    assert_eq!(
        indexed_msm(&points, &scalars, &[5u32, 1, 70000], Availability::Available),
        Ok(Launch::Accelerator { npoints: BIG, nscalars: 3, indexed: true })
    );
}

#[test]
fn indexed_msm_has_no_host_path() {
    let points = vec![0u8; BIG];
    let scalars = [0u16; 2];
    assert_eq!(
        indexed_msm(&points, &scalars, &[1u32, 0], Availability::ForcedOff),
        Err(Fault::IndexedOnHost)
    );
    assert_eq!(
        indexed_msm(&[0u8; 2], &scalars, &[1u32, 0], Availability::Available),
        Err(Fault::IndexedOnHost)
    );
    assert_eq!(
        indexed_msm(&[0u8; 2], &[0u16; 0], &[], Availability::Available),
        Err(Fault::IndexedOnHost)
    );
}

#[test]
fn indexed_msm_with_no_scalars_on_the_accelerator_is_a_fault() {
    let points = vec![0u8; BIG];
    assert_eq!(
        indexed_msm(&points, &[0u16; 0], &[], Availability::Available),
        Err(Fault::EmptyBatch)
    );
}

#[test]
fn init_below_the_crossover_stays_on_the_host() {
    let points = vec![0u8; 100];
    let (context, upload) = init::<u8, u32>(&points, Availability::Available);
    assert!(!upload);
    assert!(!context.on_gpu());
    assert_eq!(context.npoints(), Ok(100));
    assert_eq!(context.points().len(), 100);
    assert_eq!(context.cuda().context, None);
    assert_eq!(context.cuda().npoints, 0);
}

#[test]
fn init_asks_for_upload_only_where_the_accelerator_is_available() {
    let points = vec![0u8; BIG];
    assert!(init::<u8, u32>(&points, Availability::Available).1);
    assert!(!init::<u8, u32>(&points, Availability::Unknown).1);
    assert!(!init::<u8, u32>(&points, Availability::ForcedOff).1);
}

#[test]
fn attach_makes_the_context_resident() {
    let points = vec![0u8; BIG];
    let context = resident(&points, BIG);
    assert!(context.on_gpu());
    assert_eq!(context.cuda().context, Some(7));
    assert_eq!(context.cuda().npoints, BIG);
    assert_eq!(context.npoints(), Ok(BIG));
}

#[test]
fn attach_refuses_a_failed_upload() {
    let points = vec![0u8; BIG];
    let (context, _) = init::<u8, u32>(&points, Availability::Available);
    let outcome = context.attach(-3, CudaMSMContext { context: None, npoints: 0 });
    assert_eq!(outcome.err(), Some(Fault::Kernel { code: -3 }));
}

#[test]
fn npoints_refuses_a_count_that_differs_from_the_table() {
    let points = vec![0u8; BIG];
    let context = resident(&points, BIG - 1);
    assert_eq!(context.npoints(), Err(Fault::ContextMismatch));
    assert_eq!(
        with_context(&context, &[0u16; 2], Availability::Available),
        Err(Fault::ContextMismatch)
    );
}

#[test]
fn with_context_reuses_the_resident_table_from_the_crossover_on() {
    let points = vec![0u8; BIG];
    let context = resident(&points, BIG);
    let scalars = vec![0u16; CROSSOVER];
    assert_eq!(
        with_context(&context, &scalars, Availability::Available),
        Ok(Launch::Resident { nscalars: CROSSOVER, indexed: false })
    );
    assert_eq!(
        with_context(&context, &scalars, Availability::ForcedOff),
        Ok(Launch::Host { npoints: CROSSOVER })
    );
    assert_eq!(
        with_context(&context, &scalars[..100], Availability::Available),
        Ok(Launch::Host { npoints: 100 })
    );
}

#[test]
fn with_context_on_a_host_context_never_leaves_the_host() {
    let points = vec![0u8; BIG];
    let context = MSMContext::<u8, u32>::new(&points);
    let scalars = vec![0u16; BIG];
    assert_eq!(
        with_context(&context, &scalars, Availability::Available),
        Ok(Launch::Host { npoints: BIG })
    );
}

#[test]
fn with_context_needs_as_many_points_as_scalars() {
    let points = [0u8; 3];
    let context = MSMContext::<u8, u32>::new(&points);
    assert_eq!(
        with_context(&context, &[0u16; 4], Availability::Unknown),
        Err(Fault::NotEnoughPoints)
    );
    assert_eq!(
        with_context(&context, &[0u16; 2], Availability::Unknown),
        Ok(Launch::Host { npoints: 2 })
    );
}

#[test]
fn with_context_on_an_empty_table_is_a_fault() {
    let context = MSMContext::<u8, u32>::new(&[]);
    assert_eq!(
        with_context(&context, &[0u16; 0], Availability::Unknown),
        Err(Fault::UninitializedContext)
    );
    let points = [0u8; 3];
    let context = MSMContext::<u8, u32>::new(&points);
    assert_eq!(
        with_context(&context, &[0u16; 0], Availability::Unknown),
        Err(Fault::EmptyBatch)
    );
}

#[test]
fn indexed_with_context_by_reversed_indices() {
    let points = vec![0u8; BIG];
    let context = resident(&points, BIG);
    let scalars = vec![0u16; BIG];
    let indices: Vec<u32> = (0..BIG as u32).rev().collect();
    assert_eq!(
        indexed_with_context(&context, &scalars, &indices, Availability::Available),
        Ok(Launch::Resident { nscalars: BIG, indexed: true })
    );
    assert_eq!(
        with(&context, &scalars, Some(&indices), Availability::Available),
        Ok(Launch::Resident { nscalars: BIG, indexed: true })
    );
    assert_eq!(
        indexed_with_context(&context, &scalars, &indices[1..], Availability::Available),
        Err(Fault::LengthMismatch)
    );
    assert_eq!(
        indexed_with_context(&context, &scalars, &indices, Availability::ForcedOff),
        Err(Fault::IndexedOnHost)
    );
}

#[test]
fn indexed_with_context_may_take_more_scalars_than_points() {
    let points = vec![0u8; CROSSOVER];
    let context = resident(&points, CROSSOVER);
    let scalars = vec![0u16; BIG];
    let indices = vec![3u32; BIG];
    assert_eq!(
        indexed_with_context(&context, &scalars, &indices, Availability::Available),
        Ok(Launch::Resident { nscalars: BIG, indexed: true })
    );
}

#[test]
fn context_reuse_resolves_like_the_plain_call() {
    for availability in [Availability::Unknown, Availability::Available, Availability::ForcedOff] {
        for n in [1usize, 1024, 1 << 13, CROSSOVER, BIG] {
            let points = vec![0u8; n];
            let scalars = vec![0u16; n];
            let (context, upload) = init::<u8, u32>(&points, availability);
            let context = if upload {
                context.attach(0, CudaMSMContext { context: Some(1), npoints: n }).unwrap()
            } else {
                context
            };
            let plain = msm(&points, &scalars, availability);
            let reuse = with(&context, &scalars, None, availability);
            match (plain, reuse) {
                (Ok(Launch::Host { npoints: a }), Ok(Launch::Host { npoints: b })) => {
                    assert_eq!(a, n);
                    assert_eq!(b, n);
                    assert!(n < CROSSOVER || availability != Availability::Available);
                }
                (
                    Ok(Launch::Accelerator { npoints, nscalars, indexed: false }),
                    Ok(Launch::Resident { nscalars: reused, indexed: false }),
                ) => {
                    assert_eq!(npoints, n);
                    assert_eq!(nscalars, n);
                    assert_eq!(reused, n);
                    assert!(n >= CROSSOVER && availability == Availability::Available);
                }
                other => panic!("{:?}", other),
            }
        }
    }
}

#[test]
fn dropping_contexts_releases_each_table_once() {
    let released = Cell::new(0);
    let points = vec![0u8; BIG];
    let scalars = vec![0u16; BIG];
    for round in 0..100 {
        let (context, upload) = init::<u8, Table>(&points, Availability::Available);
        assert!(upload);
        let context = context
            .attach(0, CudaMSMContext { context: Some(Table(&released)), npoints: BIG })
            .ok()
            .unwrap();
        assert_eq!(released.get(), round);
        assert_eq!(
            with_context(&context, &scalars, Availability::Available),
            Ok(Launch::Resident { nscalars: BIG, indexed: false })
        );
        assert_eq!(released.get(), round);
        drop(context);
        assert_eq!(released.get(), round + 1);
    }
    // a failed upload hands the table back to be released, and binds nothing
    let (context, _) = init::<u8, Table>(&points, Availability::Available);
    let refused = context.attach(9, CudaMSMContext { context: Some(Table(&released)), npoints: 0 });
    assert!(refused.is_err());
    assert_eq!(released.get(), 101);
    // a context that never left the host releases nothing
    let (context, _) = init::<u8, Table>(&points[..10], Availability::Available);
    drop(context);
    assert_eq!(released.get(), 101);
}

#[test]
fn default_context_is_bound_to_nothing() {
    let context = MSMContext::<u8, u32>::default();
    assert!(!context.on_gpu());
    assert_eq!(context.npoints(), Ok(0));
    assert_eq!(context.cuda().context, None);
    assert_eq!(CudaMSMContext::<u32>::default().npoints, 0);
    assert_eq!(
        with_context(&context, &[0u16; 0], Availability::Available),
        Err(Fault::UninitializedContext)
    );
    assert_eq!(
        with_context(&context, &[0u16; 1], Availability::Available),
        Err(Fault::NotEnoughPoints)
    );
}

#[test]
fn fault_messages() {
    assert_eq!(Fault::LengthMismatch.message(), "length mismatch");
    assert_eq!(Fault::NotEnoughPoints.message(), "not enough points");
    assert_eq!(Fault::IndexedOnHost.message(), "no cpu support for indexed MSMs");
    assert_eq!(Fault::UninitializedContext.message(), "context holds no points");
    assert_eq!(Fault::EmptyBatch.message(), "no scalars to multiply");
    assert_eq!(
        Fault::ContextMismatch.message(),
        "context and accelerator disagree on the point count"
    );
    assert_eq!(Fault::Kernel { code: 4 }.message(), "kernel failure");
    assert_eq!(Fault::MalformedOutput.message(), "kernel output is not on the curve");
}

#[test]
fn status_reads_zero_as_success() {
    assert_eq!(status(0), Ok(()));
    assert_eq!(status(1), Err(Fault::Kernel { code: 1 }));
    assert_eq!(status(-700), Err(Fault::Kernel { code: -700 }));
}

#[test]
fn finish_puts_the_kernel_code_first() {
    let off_curve = Jacobian { x: [1, 0, 0, 0], y: [3, 0, 0, 0], z: [1, 0, 0, 0] };
    assert_eq!(finish(Curve::Bn256, 2, &off_curve), Err(Fault::Kernel { code: 2 }));
    assert_eq!(finish(Curve::Bn256, 0, &off_curve), Err(Fault::MalformedOutput));
}
