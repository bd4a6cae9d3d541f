//! Per-frame engine helpers: timers, system stage ordering, values handed to
//! an actor once, and the host that drives extensions.
use vstd::prelude::*;
use std::sync::Arc;

verus! {

/// System resource that holds the elapsed time since the previous frame.
pub struct FrameElapsedTime(pub u64);

/// Simple timer that marks itself dirty every `every_micros` microseconds.
pub struct Timer {
    pub every_micros: u64,
    pub elapsed: u64,
    pub dirty: bool,
}

impl Timer {
    /// Adds `elapsed` microseconds; once the total reaches the period the
    /// timer is marked dirty and starts counting from zero again.
    pub fn tick(&mut self, elapsed: u64)
        requires
            old(self).elapsed + elapsed <= u64::MAX,
        ensures
            final(self).every_micros == old(self).every_micros,
            old(self).elapsed + elapsed >= old(self).every_micros ==> final(self).dirty && final(self).elapsed == 0,
            old(self).elapsed + elapsed < old(self).every_micros ==> final(self).dirty == old(self).dirty
                && final(self).elapsed == old(self).elapsed + elapsed,
    {
        self.elapsed = self.elapsed + elapsed;
        if self.elapsed >= self.every_micros {
            self.dirty = true;
            self.elapsed = 0;
        }
    }
}

/// The stage a system runs in; stages run in the order of their numbers.
pub enum SystemStage {
    /// For systems that should run as soon as the frame has started.
    Cold,
    /// Application logic, ordered among itself by the number.
    Application(u8),
    /// Right before rendering.
    RenderingPreperations,
    /// Rendering, after the application has changed what it wanted to.
    Rendering,
}

/// The order number of a stage.
pub open spec fn stage_order(stage: SystemStage) -> nat {
    match stage {
        SystemStage::Cold => 0,
        SystemStage::Application(i) => i as nat + 1,
        SystemStage::RenderingPreperations => 257,
        SystemStage::Rendering => 258,
    }
}

impl SystemStage {
    /// The stage's order number: `Cold` first, then the application stages by
    /// their number, then the rendering preparations, then rendering.
    pub fn order_num(&self) -> (r: usize)
        ensures
            r == stage_order(*self),
    {
        match self {
            SystemStage::Cold => 0,
            SystemStage::Application(i) => *i as usize + 1,
            SystemStage::RenderingPreperations => 255usize + 2,
            SystemStage::Rendering => 255usize + 3,
        }
    }
}

/// Stages run in a fixed order: cold before every application stage,
/// application stages by their number, all of them before the rendering
/// preparations, and those before rendering.
pub proof fn law_stage_order(a: u8, b: u8)
    ensures
        stage_order(SystemStage::Cold) < stage_order(SystemStage::Application(a)),
        a < b ==> stage_order(SystemStage::Application(a)) < stage_order(SystemStage::Application(b)),
        stage_order(SystemStage::Application(a)) < stage_order(SystemStage::RenderingPreperations),
        stage_order(SystemStage::RenderingPreperations) < stage_order(SystemStage::Rendering),
{
}

/// A value shared with an actor's spawn code, to be taken out once.
pub struct TemporalClone<T> {
    value: Option<Arc<T>>,
}

impl<T> TemporalClone<T> {
    #[verifier::type_invariant]
    spec fn holds_value(self) -> bool {
        self.value is Some
    }

    /// The value it holds.
    pub closed spec fn held(self) -> T {
        *self.value.unwrap()
    }

    pub fn new(value: T) -> (r: TemporalClone<T>)
        ensures
            r.held() == value,
    {
        TemporalClone { value: Some(Arc::new(value)) }
    }

    /// Takes the value out.
    pub fn take(self) -> (r: Arc<T>)
        ensures
            *r == self.held(),
    {
        proof { use_type_invariant(&self); }
        let TemporalClone { value } = self;
        value.unwrap()
    }
}

/// Something that wants to run at start-up and before every tick.
pub trait Extension: Sized {
    /// `after` is what `init` leaves of an extension that was `before`;
    /// by default `init` leaves it as it was.
    open spec fn init_spec(before: Self, after: Self) -> bool {
        before == after
    }

    /// `after` is what `before_tick` leaves of an extension that was
    /// `before`; by default `before_tick` leaves it as it was.
    open spec fn before_tick_spec(before: Self, after: Self) -> bool {
        before == after
    }

    /// Runs once, when the extension is started.
    fn init(&mut self)
        ensures
            Self::init_spec(*old(self), *final(self)),
    ;

    /// Runs before every tick.
    fn before_tick(&mut self)
        ensures
            Self::before_tick_spec(*old(self), *final(self)),
    ;
}

/// Holds the extensions and runs them.
pub struct ExtensionHost<E: Extension> {
    extensions: Vec<E>,
}

impl<E: Extension> ExtensionHost<E> {
    /// The extensions it holds, in the order they were added.
    pub closed spec fn held(&self) -> Seq<E> {
        self.extensions@
    }

    /// How many extensions it holds.
    pub open spec fn count(&self) -> nat {
        self.held().len()
    }

    pub fn new() -> (r: ExtensionHost<E>)
        ensures
            r.held() == Seq::<E>::empty(),
    {
        ExtensionHost { extensions: Vec::new() }
    }

    /// Adds an extension after the others.
    pub fn add(&mut self, extension: E)
        ensures
            final(self).held() == old(self).held().push(extension),
    {
        self.extensions.push(extension);
    }

    /// Runs `init` of each extension once, in the order they were added.
    pub fn init(&mut self)
        ensures
            final(self).held().len() == old(self).held().len(),
            forall|i: int| 0 <= i < old(self).held().len()
                ==> E::init_spec(#[trigger] old(self).held()[i], final(self).held()[i]),
    {
        let ghost orig = self.extensions@;
        let mut done: Vec<E> = Vec::new();
        while self.extensions.len() > 0
            invariant
                done@.len() + self.extensions@.len() == orig.len(),
                self.extensions@ == orig.skip(done@.len() as int),
                forall|i: int| 0 <= i < done@.len() ==> E::init_spec(#[trigger] orig[i], done@[i]),
            decreases self.extensions@.len(),
        {
            let ghost k = done@.len() as int;
            let mut ext = self.extensions.remove(0);
            assert(ext == orig[k]);
            ext.init();
            done.push(ext);
            assert(self.extensions@ =~= orig.skip(k + 1));
        }
        self.extensions = done;
    }

    /// Runs `before_tick` of each extension once, in the order they were
    /// added.
    pub fn before_tick(&mut self)
        ensures
            final(self).held().len() == old(self).held().len(),
            forall|i: int| 0 <= i < old(self).held().len()
                ==> E::before_tick_spec(#[trigger] old(self).held()[i], final(self).held()[i]),
    {
        let ghost orig = self.extensions@;
        let mut done: Vec<E> = Vec::new();
        while self.extensions.len() > 0
            invariant
                done@.len() + self.extensions@.len() == orig.len(),
                self.extensions@ == orig.skip(done@.len() as int),
                forall|i: int| 0 <= i < done@.len() ==> E::before_tick_spec(#[trigger] orig[i], done@[i]),
            decreases self.extensions@.len(),
        {
            let ghost k = done@.len() as int;
            let mut ext = self.extensions.remove(0);
            assert(ext == orig[k]);
            ext.before_tick();
            done.push(ext);
            assert(self.extensions@ =~= orig.skip(k + 1));
        }
        self.extensions = done;
    }
}

} // verus!
