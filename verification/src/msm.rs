//! Shape checks, context state and routing for multi-scalar multiplication.
//!
//! The kernels themselves run outside this crate. Each function here takes
//! what the caller holds, decides what must run, and names the fault where
//! nothing may run.

use crate::group::{from_jacobian, on_curve, represents, Curve, Jacobian, Point};
use crate::oracle::{accelerated, Availability, CROSSOVER};
use vstd::prelude::*;

verus! {

/// Why a call cannot go on. Every one of these ends the operation; none is
/// retried and none falls back to the other substrate.
#[derive(Clone, Copy, Debug, PartialEq, Eq, Structural)]
pub enum Fault {
    /// Two lengths that must agree do not.
    LengthMismatch,
    /// The context holds fewer points than there are scalars.
    NotEnoughPoints,
    /// An indexed request was routed to the host kernel, which has none.
    IndexedOnHost,
    /// The context's point table is empty.
    UninitializedContext,
    /// There is no scalar to multiply.
    EmptyBatch,
    /// The point count recorded on the accelerator is not the host table's.
    ContextMismatch,
    /// A kernel reported a nonzero error code.
    Kernel { code: i32 },
    /// A kernel returned a triple that is no point of the curve.
    MalformedOutput,
}

impl Fault {
    /// The words that go with the fault. A kernel's own message stays with
    /// the kernel's error; here it is only said that one failed.
    pub fn message(&self) -> (m: &'static str)
        ensures
            m@ == (match *self {
                Fault::LengthMismatch => "length mismatch"@,
                Fault::NotEnoughPoints => "not enough points"@,
                Fault::IndexedOnHost => "no cpu support for indexed MSMs"@,
                Fault::UninitializedContext => "context holds no points"@,
                Fault::EmptyBatch => "no scalars to multiply"@,
                Fault::ContextMismatch => "context and accelerator disagree on the point count"@,
                Fault::Kernel { .. } => "kernel failure"@,
                Fault::MalformedOutput => "kernel output is not on the curve"@,
            }),
    {
        match self {
            Fault::LengthMismatch => "length mismatch",
            Fault::NotEnoughPoints => "not enough points",
            Fault::IndexedOnHost => "no cpu support for indexed MSMs",
            Fault::UninitializedContext => "context holds no points",
            Fault::EmptyBatch => "no scalars to multiply",
            Fault::ContextMismatch => "context and accelerator disagree on the point count",
            Fault::Kernel { .. } => "kernel failure",
            Fault::MalformedOutput => "kernel output is not on the curve",
        }
    }
}

/// The kernel entry that a call resolves to.
#[derive(Clone, Copy, Debug, PartialEq, Eq, Structural)]
pub enum Launch {
    /// The host kernel, over the first `npoints` points and scalars.
    Host { npoints: usize },
    /// The plain accelerator entry: the whole table of `npoints` points is
    /// uploaded, then `nscalars` scalars are multiplied, through the index
    /// array where `indexed`.
    Accelerator { npoints: usize, nscalars: usize, indexed: bool },
    /// The accelerator entry that reuses an uploaded table.
    Resident { nscalars: usize, indexed: bool },
}

/// The accelerator's side of a context: the opaque handle of the uploaded
/// table, and the number of points that went into it.
#[derive(Debug)]
pub struct CudaMSMContext<H> {
    pub context: Option<H>,
    pub npoints: usize,
}

/// A point table bound for repeated use, on the host and, once uploaded,
/// on the accelerator.
#[derive(Debug)]
pub struct MSMContext<'a, P, H> {
    cuda_context: CudaMSMContext<H>,
    on_gpu: bool,
    cpu_context: &'a [P],
}

impl<H> Default for CudaMSMContext<H> {
    /// No table uploaded.
    fn default() -> (c: Self)
        ensures
            c.context.is_none(),
            c.npoints == 0,
    {
        CudaMSMContext { context: None, npoints: 0 }
    }
}

impl<'a, P, H> Default for MSMContext<'a, P, H> {
    /// A context that was bound to no table.
    fn default() -> (c: Self)
        ensures
            c.table().len() == 0,
            !c.resident(),
            c.device().context.is_none(),
            c.device().npoints == 0,
    {
        MSMContext { cuda_context: CudaMSMContext::default(), on_gpu: false, cpu_context: &[] }
    }
}

impl<'a, P, H> MSMContext<'a, P, H> {
    /// The host table.
    pub closed spec fn table(&self) -> Seq<P> {
        self.cpu_context@
    }

    /// Whether the table is resident on the accelerator.
    pub closed spec fn resident(&self) -> bool {
        self.on_gpu
    }

    /// The accelerator's side.
    pub closed spec fn device(&self) -> CudaMSMContext<H> {
        self.cuda_context
    }

    /// A context on the host only.
    pub fn new(points: &'a [P]) -> (c: Self)
        ensures
            c.table() == points@,
            !c.resident(),
            c.device().context.is_none(),
            c.device().npoints == 0,
    {
        MSMContext { cuda_context: CudaMSMContext::default(), on_gpu: false, cpu_context: points }
    }

    /// The number of points in the table. Where the table is resident, the
    /// count recorded at upload must agree with the host's.
    pub fn npoints(&self) -> (r: Result<usize, Fault>)
        ensures
            match r {
                Ok(n) => n == self.table().len() && !(self.resident() && self.device().npoints
                    != self.table().len()),
                Err(fault) => fault == Fault::ContextMismatch && self.resident()
                    && self.device().npoints != self.table().len(),
            },
    {
        if self.on_gpu && self.cpu_context.len() != self.cuda_context.npoints {
            return Err(Fault::ContextMismatch);
        }
        Ok(self.cpu_context.len())
    }

    /// The accelerator's side, read-only.
    pub fn cuda(&self) -> (c: &CudaMSMContext<H>)
        ensures
            *c == self.device(),
    {
        &self.cuda_context
    }

    /// The host table.
    pub fn points(&self) -> (p: &'a [P])
        ensures
            p@ == self.table(),
    {
        self.cpu_context
    }

    /// Whether the table is resident on the accelerator.
    pub fn on_gpu(&self) -> (b: bool)
        ensures
            b == self.resident(),
    {
        self.on_gpu
    }

    /// Takes in the outcome of the upload kernel: its error code, and the
    /// accelerator's side as the kernel filled it. A nonzero code is a
    /// fault; otherwise the context is resident from now on.
    pub fn attach(self, code: i32, device: CudaMSMContext<H>) -> (r: Result<Self, Fault>)
        ensures
            code != 0 ==> r == Err::<Self, Fault>(Fault::Kernel { code }),
            code == 0 ==> r.is_ok() && r.unwrap().table() == self.table() && r.unwrap().resident()
                && r.unwrap().device() == device,
    {
        if code != 0 {
            return Err(Fault::Kernel { code });
        }
        Ok(MSMContext { cuda_context: device, on_gpu: true, cpu_context: self.cpu_context })
    }
}

/// Binds a point table. The second component says whether the table is to
/// be uploaded: from the crossover on, where the accelerator is available.
/// Until [`MSMContext::attach`] has taken in the upload, the context is on
/// the host only.
pub fn init<'a, P, H>(points: &'a [P], availability: Availability) -> (r: (
    MSMContext<'a, P, H>,
    bool,
))
    ensures
        r.0.table() == points@,
        !r.0.resident(),
        r.0.device().context.is_none(),
        r.0.device().npoints == 0,
        r.1 == accelerated(points@.len() as int, availability),
{
    let npoints = points.len();
    let ret = MSMContext::new(points);
    (ret, npoints >= CROSSOVER && availability.available())
}

/// The terms that a request asks a kernel to sum: each scalar with the
/// point it multiplies, which is point `indices[i]` where indices are given
/// and point `i` otherwise.
pub open spec fn terms<P, S>(points: Seq<P>, scalars: Seq<S>, indices: Option<Seq<u32>>) -> Seq<
    (S, P),
> {
    Seq::new(
        scalars.len(),
        |i: int|
            (
                scalars[i],
                match indices {
                    Some(inner) => points[inner[i] as int],
                    None => points[i],
                },
            ),
    )
}

impl Launch {
    /// The terms that the kernel behind this launch sums, for the points,
    /// scalars and indices that the call was made with. The host kernel
    /// takes the first `npoints` scalars one for one; the accelerator
    /// entries take `nscalars` scalars, through the indices where `indexed`.
    pub open spec fn asks<P, S>(
        self,
        points: Seq<P>,
        scalars: Seq<S>,
        indices: Option<Seq<u32>>,
    ) -> Seq<(S, P)> {
        match self {
            Launch::Host { npoints } => terms(points, scalars.take(npoints as int), None),
            Launch::Accelerator { nscalars, indexed, .. } => terms(
                points,
                scalars.take(nscalars as int),
                if indexed {
                    indices
                } else {
                    None
                },
            ),
            Launch::Resident { nscalars, indexed } => terms(
                points,
                scalars.take(nscalars as int),
                if indexed {
                    indices
                } else {
                    None
                },
            ),
        }
    }
}

/// What `msm_aux` resolves to. Lengths are checked first; the accelerator
/// takes the call from the crossover on, where it is available; the host
/// takes the rest, and has no indexed operation.
pub open spec fn msm_plan(
    npoints: int,
    nscalars: int,
    indices: Option<int>,
    availability: Availability,
) -> Result<Launch, Fault> {
    let mismatch = match indices {
        Some(nindices) => nscalars != nindices,
        None => npoints != nscalars,
    };
    if mismatch {
        Err(Fault::LengthMismatch)
    } else if accelerated(npoints, availability) {
        if nscalars == 0 {
            Err(Fault::EmptyBatch)
        } else {
            Ok(
                Launch::Accelerator {
                    npoints: npoints as usize,
                    nscalars: nscalars as usize,
                    indexed: indices.is_some(),
                },
            )
        }
    } else if indices.is_some() {
        Err(Fault::IndexedOnHost)
    } else if npoints == 0 {
        Err(Fault::EmptyBatch)
    } else {
        Ok(Launch::Host { npoints: npoints as usize })
    }
}

/// What `with` resolves to, for a context with a table of `table` points
/// that is `resident` with `recorded` points on the accelerator.
pub open spec fn with_plan(
    table: int,
    resident: bool,
    recorded: int,
    nscalars: int,
    indices: Option<int>,
    availability: Availability,
) -> Result<Launch, Fault> {
    if resident && recorded != table {
        Err(Fault::ContextMismatch)
    } else if indices.is_some() && nscalars != indices.unwrap() {
        Err(Fault::LengthMismatch)
    } else if indices.is_none() && table < nscalars {
        Err(Fault::NotEnoughPoints)
    } else if accelerated(nscalars, availability) && resident {
        Ok(Launch::Resident { nscalars: nscalars as usize, indexed: indices.is_some() })
    } else if indices.is_some() {
        Err(Fault::IndexedOnHost)
    } else if table == 0 {
        Err(Fault::UninitializedContext)
    } else if nscalars == 0 {
        Err(Fault::EmptyBatch)
    } else {
        Ok(Launch::Host { npoints: nscalars as usize })
    }
}

/// The length of an index sequence, where there is one.
pub open spec fn count(indices: Option<Seq<u32>>) -> Option<int> {
    match indices {
        Some(inner) => Some(inner.len() as int),
        None => None,
    }
}

/// The values of an index array, where there is one.
pub open spec fn index_view(indices: Option<&[u32]>) -> Option<Seq<u32>> {
    match indices {
        Some(inner) => Some(inner@),
        None => None,
    }
}

/// Resolves a multiplication of `scalars` with `points`, through `indices`
/// where given: scalar `i` then multiplies point `indices[i]`. The index
/// values are not held against the table's length.
pub fn msm_aux<P, S>(
    points: &[P],
    scalars: &[S],
    indices: Option<&[u32]>,
    availability: Availability,
) -> (r: Result<Launch, Fault>)
    ensures
        r == msm_plan(
            points@.len() as int,
            scalars@.len() as int,
            count(index_view(indices)),
            availability,
        ),
        r matches Ok(launch) ==> launch.asks(points@, scalars@, index_view(indices)) == terms(
            points@,
            scalars@,
            index_view(indices),
        ),
{
    let npoints = points.len();
    let nscalars = scalars.len();
    if let Some(inner) = indices {
        if nscalars != inner.len() {
            return Err(Fault::LengthMismatch);
        }
    } else if npoints != nscalars {
        return Err(Fault::LengthMismatch);
    }
    if npoints >= CROSSOVER && availability.available() {
        if nscalars == 0 {
            return Err(Fault::EmptyBatch);
        }
        return Ok(Launch::Accelerator { npoints, nscalars, indexed: indices.is_some() });
    }
    if indices.is_some() {
        return Err(Fault::IndexedOnHost);
    }
    if npoints == 0 {
        return Err(Fault::EmptyBatch);
    }
    Ok(Launch::Host { npoints })
}

/// Resolves the multiplication of `scalars` with `points`, one for one.
/// Tables and batches of different lengths are always a fault.
pub fn msm<P, S>(points: &[P], scalars: &[S], availability: Availability) -> (r: Result<
    Launch,
    Fault,
>)
    ensures
        r == msm_plan(points@.len() as int, scalars@.len() as int, None, availability),
        points@.len() != scalars@.len() ==> r == Err::<Launch, Fault>(Fault::LengthMismatch),
        r matches Ok(launch) ==> launch.asks(points@, scalars@, None) == terms(
            points@,
            scalars@,
            None,
        ),
{
    msm_aux(points, scalars, None, availability)
}

/// An indexed MSM. We do not check if the indices are valid, i.e.
/// for i in 0..nscalars, 0 <= indices[i] < npoints
///
/// Also, this version carries a performance penalty that all the
/// points must be moved onto the GPU once instead of in batches.
/// If the points are to be reused, please use the [`MSMContext`] API
pub fn indexed_msm<P, S>(
    points: &[P],
    scalars: &[S],
    indices: &[u32],
    availability: Availability,
) -> (r: Result<Launch, Fault>)
    ensures
        r == msm_plan(
            points@.len() as int,
            scalars@.len() as int,
            Some(indices@.len() as int),
            availability,
        ),
        r matches Ok(launch) ==> launch.asks(points@, scalars@, Some(indices@)) == terms(
            points@,
            scalars@,
            Some(indices@),
        ),
{
    msm_aux(points, scalars, Some(indices), availability)
}

/// Resolves a multiplication of `scalars` with the table of a context,
/// through `indices` where given.
pub fn with<P, H, S>(
    context: &MSMContext<'_, P, H>,
    scalars: &[S],
    indices: Option<&[u32]>,
    availability: Availability,
) -> (r: Result<Launch, Fault>)
    ensures
        r == with_plan(
            context.table().len() as int,
            context.resident(),
            context.device().npoints as int,
            scalars@.len() as int,
            count(index_view(indices)),
            availability,
        ),
        r matches Ok(launch) ==> launch.asks(context.table(), scalars@, index_view(indices))
            == terms(context.table(), scalars@, index_view(indices)),
{
    let npoints = match context.npoints() {
        Ok(n) => n,
        Err(fault) => {
            return Err(fault);
        },
    };
    let nscalars = scalars.len();
    if let Some(inner) = indices {
        if nscalars != inner.len() {
            return Err(Fault::LengthMismatch);
        }
    } else if npoints < nscalars {
        return Err(Fault::NotEnoughPoints);
    }
    if nscalars >= CROSSOVER && context.on_gpu() && availability.available() {
        return Ok(Launch::Resident { nscalars, indexed: indices.is_some() });
    }
    if indices.is_some() {
        return Err(Fault::IndexedOnHost);
    }
    if npoints == 0 {
        return Err(Fault::UninitializedContext);
    }
    if nscalars == 0 {
        return Err(Fault::EmptyBatch);
    }
    Ok(Launch::Host { npoints: nscalars })
}

/// Resolves the multiplication of `scalars` with the first points of a
/// context's table, one for one.
pub fn with_context<P, H, S>(
    context: &MSMContext<'_, P, H>,
    scalars: &[S],
    availability: Availability,
) -> (r: Result<Launch, Fault>)
    ensures
        r == with_plan(
            context.table().len() as int,
            context.resident(),
            context.device().npoints as int,
            scalars@.len() as int,
            None,
            availability,
        ),
        r matches Ok(launch) ==> launch.asks(context.table(), scalars@, None) == terms(
            context.table(),
            scalars@,
            None,
        ),
{
    with(context, scalars, None, availability)
}

/// An indexed MSM. We do not check if the indices are valid, i.e.
/// for i in 0..nscalars, 0 <= indices[i] < npoints
pub fn indexed_with_context<P, H, S>(
    context: &MSMContext<'_, P, H>,
    scalars: &[S],
    indices: &[u32],
    availability: Availability,
) -> (r: Result<Launch, Fault>)
    ensures
        r == with_plan(
            context.table().len() as int,
            context.resident(),
            context.device().npoints as int,
            scalars@.len() as int,
            Some(indices@.len() as int),
            availability,
        ),
        r matches Ok(launch) ==> launch.asks(context.table(), scalars@, Some(indices@)) == terms(
            context.table(),
            scalars@,
            Some(indices@),
        ),
{
    with(context, scalars, Some(indices), availability)
}

/// Reads a kernel's structured error: zero is success, anything else is a
/// fault that carries the code.
pub fn status(code: i32) -> (r: Result<(), Fault>)
    ensures
        r == (if code == 0 {
            Ok::<(), Fault>(())
        } else {
            Err(Fault::Kernel { code })
        }),
{
    if code == 0 {
        Ok(())
    } else {
        Err(Fault::Kernel { code })
    }
}

/// Takes in what a kernel returned: its error code, and the raw triple it
/// wrote. A nonzero code is a fault, and so is a triple that is no point of
/// the curve; otherwise the result is the group element that the triple
/// stands for.
pub fn finish(curve: Curve, code: i32, raw: &Jacobian) -> (r: Result<Point, Fault>)
    ensures
        code != 0 ==> r == Err::<Point, Fault>(Fault::Kernel { code }),
        code == 0 && !on_curve(curve, *raw) ==> r == Err::<Point, Fault>(Fault::MalformedOutput),
        code == 0 && on_curve(curve, *raw) ==> r.is_ok() && represents(curve, *raw, r.unwrap()),
{
    if let Err(fault) = status(code) {
        return Err(fault);
    }
    match from_jacobian(curve, raw) {
        Some(point) => Ok(point),
        None => Err(Fault::MalformedOutput),
    }
}

/// A plain call on a table and a batch of different lengths is a length
/// mismatch, whatever is known of the accelerator and however long either
/// is; and a plain call is a length mismatch on no other inputs.
pub proof fn lemma_length_mismatch_is_always_a_fault(
    npoints: int,
    nscalars: int,
    availability: Availability,
)
    ensures
        msm_plan(npoints, nscalars, None, availability) == Err::<Launch, Fault>(
            Fault::LengthMismatch,
        ) <==> npoints != nscalars,
        npoints != nscalars ==> !msm_plan(npoints, nscalars, None, availability).is_ok(),
{
}

/// When a plain or indexed call resolves to what: each fault and each
/// launch with the inputs on which it comes.
pub proof fn lemma_msm_outcomes(
    npoints: int,
    nscalars: int,
    indices: Option<int>,
    availability: Availability,
)
    requires
        0 <= npoints <= usize::MAX,
        0 <= nscalars <= usize::MAX,
    ensures
        ({
            let plan = msm_plan(npoints, nscalars, indices, availability);
            let agree = match indices {
                Some(nindices) => nscalars == nindices,
                None => npoints == nscalars,
            };
            let fast = accelerated(npoints, availability);
            &&& plan == Err::<Launch, Fault>(Fault::LengthMismatch) <==> !agree
            &&& plan == Err::<Launch, Fault>(Fault::IndexedOnHost) <==> agree && !fast
                && indices.is_some()
            &&& plan == Err::<Launch, Fault>(Fault::EmptyBatch) <==> agree && nscalars == 0 && (fast
                || indices.is_none())
            &&& (plan matches Ok(Launch::Accelerator { .. })) <==> agree && fast && nscalars > 0
            &&& (plan matches Ok(Launch::Host { .. })) <==> agree && !fast && indices.is_none()
                && nscalars > 0
            &&& plan matches Ok(Launch::Accelerator { npoints: p, nscalars: s, indexed: i }) ==> p
                == npoints && s == nscalars && i == indices.is_some()
            &&& plan matches Ok(Launch::Host { npoints: p }) ==> p == npoints
            &&& !(plan matches Ok(Launch::Resident { .. }))
        }),
{
}

/// When a call on a context resolves to what: each fault and each launch
/// with the inputs on which it comes.
pub proof fn lemma_with_outcomes(
    table: int,
    resident: bool,
    recorded: int,
    nscalars: int,
    indices: Option<int>,
    availability: Availability,
)
    requires
        0 <= table <= usize::MAX,
        0 <= nscalars <= usize::MAX,
    ensures
        ({
            let plan = with_plan(table, resident, recorded, nscalars, indices, availability);
            let bound = !(resident && recorded != table);
            let agree = match indices {
                Some(nindices) => nscalars == nindices,
                None => table >= nscalars,
            };
            let fast = accelerated(nscalars, availability) && resident;
            &&& plan == Err::<Launch, Fault>(Fault::ContextMismatch) <==> !bound
            &&& plan == Err::<Launch, Fault>(Fault::LengthMismatch) <==> bound && indices.is_some()
                && !agree
            &&& plan == Err::<Launch, Fault>(Fault::NotEnoughPoints) <==> bound && indices.is_none()
                && !agree
            &&& plan == Err::<Launch, Fault>(Fault::IndexedOnHost) <==> bound && agree && !fast
                && indices.is_some()
            &&& plan == Err::<Launch, Fault>(Fault::UninitializedContext) <==> bound && agree
                && !fast && indices.is_none() && table == 0
            &&& plan == Err::<Launch, Fault>(Fault::EmptyBatch) <==> bound && agree && !fast
                && indices.is_none() && table > 0 && nscalars == 0
            &&& (plan matches Ok(Launch::Resident { .. })) <==> bound && agree && fast
            &&& (plan matches Ok(Launch::Host { .. })) <==> bound && agree && !fast
                && indices.is_none() && nscalars > 0
            &&& plan matches Ok(Launch::Resident { nscalars: s, indexed: i }) ==> s == nscalars && i
                == indices.is_some()
            &&& plan matches Ok(Launch::Host { npoints: p }) ==> p == nscalars
            &&& !(plan matches Ok(Launch::Accelerator { .. }))
        }),
{
}

/// Whatever a plain or indexed call resolves to, the launch asks for the
/// terms of the request: every scalar, each with its point.
pub proof fn lemma_plain_launch_asks_for_the_request<P, S>(
    points: Seq<P>,
    scalars: Seq<S>,
    indices: Option<Seq<u32>>,
    availability: Availability,
    launch: Launch,
)
    requires
        points.len() <= usize::MAX,
        scalars.len() <= usize::MAX,
        msm_plan(points.len() as int, scalars.len() as int, count(indices), availability) == Ok::<
            Launch,
            Fault,
        >(launch),
    ensures
        launch.asks(points, scalars, indices) == terms(points, scalars, indices),
{
    assert(scalars.take(scalars.len() as int) =~= scalars);
}

/// Whatever a call on a context resolves to, the launch asks for the terms
/// of the request over the context's table.
pub proof fn lemma_context_launch_asks_for_the_request<P, S>(
    table: Seq<P>,
    resident: bool,
    recorded: int,
    scalars: Seq<S>,
    indices: Option<Seq<u32>>,
    availability: Availability,
    launch: Launch,
)
    requires
        table.len() <= usize::MAX,
        scalars.len() <= usize::MAX,
        with_plan(
            table.len() as int,
            resident,
            recorded,
            scalars.len() as int,
            count(indices),
            availability,
        ) == Ok::<Launch, Fault>(launch),
    ensures
        launch.asks(table, scalars, indices) == terms(table, scalars, indices),
{
    assert(scalars.take(scalars.len() as int) =~= scalars);
}

/// A context bound to a table, uploaded where `init` asks for it, and used
/// with as many scalars as it has points resolves as the plain call on the
/// same table does: both fail or both launch, on the same substrate, over
/// the same batch, and they ask for the same terms.
pub proof fn lemma_context_reuse<P, S>(
    points: Seq<P>,
    scalars: Seq<S>,
    availability: Availability,
)
    requires
        points.len() == scalars.len() <= usize::MAX,
    ensures
        ({
            let n = points.len() as int;
            let plain = msm_plan(n, n, None, availability);
            let reuse = with_plan(n, accelerated(n, availability), n, n, None, availability);
            &&& plain.is_err() <==> reuse.is_err()
            &&& plain.is_err() <==> n == 0
            &&& plain == Ok::<Launch, Fault>(Launch::Host { npoints: n as usize }) <==> reuse == Ok::<
                Launch,
                Fault,
            >(Launch::Host { npoints: n as usize })
            &&& plain == Ok::<Launch, Fault>(
                Launch::Accelerator { npoints: n as usize, nscalars: n as usize, indexed: false },
            ) <==> reuse == Ok::<Launch, Fault>(
                Launch::Resident { nscalars: n as usize, indexed: false },
            )
            &&& plain.is_ok() ==> plain.unwrap().asks(points, scalars, None)
                == reuse.unwrap().asks(points, scalars, None)
        }),
{
    assert(scalars.take(scalars.len() as int) =~= scalars);
}

/// The indices `n - 1, n - 2, .., 0`.
pub open spec fn reversed_indices(n: nat) -> Seq<u32> {
    Seq::new(n, |i: int| (n - 1 - i) as u32)
}

/// Indexing by the reversed indices asks for the terms of the plain request
/// with the scalars reversed, in reverse order: the same terms, each as
/// often.
pub proof fn lemma_reversed_indices_reverse_scalars<P, S>(points: Seq<P>, scalars: Seq<S>)
    requires
        points.len() == scalars.len(),
        scalars.len() <= u32::MAX + 1,
    ensures
        terms(points, scalars, Some(reversed_indices(scalars.len()))) == terms(
            points,
            scalars.reverse(),
            None,
        ).reverse(),
        terms(points, scalars, Some(reversed_indices(scalars.len()))).to_multiset() == terms(
            points,
            scalars.reverse(),
            None,
        ).to_multiset(),
{
    let plain = terms(points, scalars.reverse(), None);
    assert(terms(points, scalars, Some(reversed_indices(scalars.len()))) =~= plain.reverse());
    plain.lemma_reverse_to_multiset();
}

/// Where a call on a context with the reversed indices resolves to a launch,
/// and the plain call with the scalars reversed does too, the two launches
/// ask for the same terms, each as often.
pub proof fn lemma_reversed_indices_on_a_context<P, S>(
    points: Seq<P>,
    scalars: Seq<S>,
    resident: bool,
    availability: Availability,
    indexed: Launch,
    plain: Launch,
)
    requires
        points.len() == scalars.len(),
        scalars.len() <= u32::MAX + 1,
        scalars.len() <= usize::MAX,
        with_plan(
            points.len() as int,
            resident,
            points.len() as int,
            scalars.len() as int,
            Some(scalars.len() as int),
            availability,
        ) == Ok::<Launch, Fault>(indexed),
        msm_plan(points.len() as int, scalars.len() as int, None, availability) == Ok::<
            Launch,
            Fault,
        >(plain),
    ensures
        indexed.asks(points, scalars, Some(reversed_indices(scalars.len()))).to_multiset()
            == plain.asks(points, scalars.reverse(), None).to_multiset(),
{
    let indices = Some(reversed_indices(scalars.len()));
    lemma_context_launch_asks_for_the_request(
        points,
        resident,
        points.len() as int,
        scalars,
        indices,
        availability,
        indexed,
    );
    lemma_plain_launch_asks_for_the_request(points, scalars.reverse(), None, availability, plain);
    lemma_reversed_indices_reverse_scalars(points, scalars);
}

/// With the override set, a call resolves as it does where no device was
/// seen, and never to the accelerator; and where it launches, it asks for
/// the same terms as the launch that any other state of the oracle gives.
pub proof fn lemma_forced_off_parity<P, S>(
    points: Seq<P>,
    scalars: Seq<S>,
    resident: bool,
    recorded: int,
    indices: Option<Seq<u32>>,
    availability: Availability,
)
    requires
        points.len() <= usize::MAX,
        scalars.len() <= usize::MAX,
    ensures
        ({
            let npoints = points.len() as int;
            let nscalars = scalars.len() as int;
            let forced = msm_plan(npoints, nscalars, count(indices), Availability::ForcedOff);
            let other = msm_plan(npoints, nscalars, count(indices), availability);
            let forced_with = with_plan(
                npoints,
                resident,
                recorded,
                nscalars,
                count(indices),
                Availability::ForcedOff,
            );
            let other_with = with_plan(
                npoints,
                resident,
                recorded,
                nscalars,
                count(indices),
                availability,
            );
            &&& forced == msm_plan(npoints, nscalars, count(indices), Availability::Unknown)
            &&& forced_with == with_plan(
                npoints,
                resident,
                recorded,
                nscalars,
                count(indices),
                Availability::Unknown,
            )
            &&& !(forced matches Ok(Launch::Accelerator { .. }))
            &&& !(forced_with matches Ok(Launch::Resident { .. }))
            &&& forced.is_ok() ==> other.is_ok() && forced.unwrap().asks(points, scalars, indices)
                == other.unwrap().asks(points, scalars, indices)
            &&& forced_with.is_ok() ==> other_with.is_ok() && forced_with.unwrap().asks(
                points,
                scalars,
                indices,
            ) == other_with.unwrap().asks(points, scalars, indices)
        }),
{
    assert(scalars.take(scalars.len() as int) =~= scalars);
}

} // verus!
