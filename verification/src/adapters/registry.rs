//! The set of adapter backends that the user can choose from.

use vstd::prelude::*;

use crate::adapters::{copy_text, text_view, AdapterKind, AdapterKindView};
use crate::text;

verus! {

/// Connection parameters gathered from the user. Each backend reads only those it needs.
#[derive(Debug)]
pub struct AdapterParams {
    pub port: String,
    pub baud: u32,
    pub listen_only: bool,
    /// Optional USB serial used to pin a specific device.
    pub serial: Option<String>,
}

impl Default for AdapterParams {
    fn default() -> (r: Self)
        ensures
            r.port@ == Seq::<char>::empty(),
            r.baud == 0,
            !r.listen_only,
            r.serial is None,
    {
        AdapterParams { port: String::new(), baud: 0, listen_only: false, serial: None }
    }
}

/// Availability of an adapter.
#[derive(Clone, Copy, Debug, PartialEq, Eq, Structural)]
pub enum AdapterAvailability {
    /// Detected and not claimed by any other process.
    Available,
    /// Detected but already claimed by another running instance.
    InUse,
    /// Not detected (device absent or interface down).
    Absent,
}

/// A self-describing adapter backend.
pub trait CanAdapterFactory {
    /// The stable identifier.
    spec fn spec_id(&self) -> Seq<char>;

    /// The name.
    spec fn spec_name(&self) -> Seq<char>;

    /// Stable identifier used in persisted configuration.
    fn id(&self) -> (r: &'static str)
        ensures
            r@ == self.spec_id(),
    ;

    /// Human-readable name.
    fn display_name(&self) -> (r: &'static str)
        ensures
            r@ == self.spec_name(),
    ;
}

/// The built-in backends.
#[derive(Clone, Copy, Debug, PartialEq, Eq, Structural)]
pub enum BuiltinFactory {
    Summit,
    KCan,
    SocketCan,
    Apex,
}

impl CanAdapterFactory for BuiltinFactory {
    open spec fn spec_id(&self) -> Seq<char> {
        match self {
            BuiltinFactory::Summit => "summit"@,
            BuiltinFactory::KCan => "kcan"@,
            BuiltinFactory::SocketCan => "socketcan"@,
            BuiltinFactory::Apex => "apex"@,
        }
    }

    open spec fn spec_name(&self) -> Seq<char> {
        match self {
            BuiltinFactory::Summit => "Summit"@,
            BuiltinFactory::KCan => "KCAN Dongle"@,
            BuiltinFactory::SocketCan => "SocketCAN"@,
            BuiltinFactory::Apex => "Apex"@,
        }
    }

    fn id(&self) -> (r: &'static str) {
        match self {
            BuiltinFactory::Summit => "summit",
            BuiltinFactory::KCan => "kcan",
            BuiltinFactory::SocketCan => "socketcan",
            BuiltinFactory::Apex => "apex",
        }
    }

    fn display_name(&self) -> (r: &'static str) {
        match self {
            BuiltinFactory::Summit => "Summit",
            BuiltinFactory::KCan => "KCAN Dongle",
            BuiltinFactory::SocketCan => "SocketCAN",
            BuiltinFactory::Apex => "Apex",
        }
    }
}

impl BuiltinFactory {
    /// The adapter kind of a built-in backend.
    pub open spec fn kind(self, params: AdapterParams) -> AdapterKindView {
        match self {
            BuiltinFactory::Summit => AdapterKindView::Summit,
            BuiltinFactory::KCan => AdapterKindView::KCan { serial: text_view(params.serial) },
            BuiltinFactory::SocketCan => AdapterKindView::SocketCan,
            BuiltinFactory::Apex => AdapterKindView::Apex { serial: text_view(params.serial) },
        }
    }

    /// The adapter to open or to look for, for the given parameters.
    pub fn make_kind(&self, params: &AdapterParams) -> (r: AdapterKind)
        ensures
            r@ == self.kind(*params),
    {
        match self {
            BuiltinFactory::Summit => AdapterKind::Summit,
            BuiltinFactory::KCan => AdapterKind::KCan { serial: copy_text(&params.serial) },
            BuiltinFactory::SocketCan => AdapterKind::SocketCan,
            BuiltinFactory::Apex => AdapterKind::Apex { serial: copy_text(&params.serial) },
        }
    }
}

/// The set of adapter backends, in the order of registration.
pub struct AdapterRegistry<F> {
    factories: Vec<F>,
}

impl<F: CanAdapterFactory> AdapterRegistry<F> {
    /// The backends, in the order of registration.
    pub closed spec fn view(&self) -> Seq<F> {
        self.factories@
    }

    /// A registry without backends.
    pub fn new() -> (r: Self)
        ensures
            r@ == Seq::<F>::empty(),
    {
        AdapterRegistry { factories: Vec::new() }
    }

    /// Adds a backend.
    pub fn register(&mut self, factory: F)
        ensures
            final(self)@ == old(self)@.push(factory),
    {
        self.factories.push(factory);
    }

    /// All backends.
    pub fn factories(&self) -> (r: &[F])
        ensures
            r@ == self@,
    {
        self.factories.as_slice()
    }

    /// The first backend with the given identifier.
    pub fn by_id(&self, id: &str) -> (r: Option<&F>)
        ensures
            r is None ==> forall|j: int|
                0 <= j < self@.len() ==> (#[trigger] self@[j]).spec_id() != id@,
            r matches Some(f) ==> exists|i: int|
                {
                    &&& 0 <= i < self@.len()
                    &&& #[trigger] self@[i] == *f
                    &&& f.spec_id() == id@
                    &&& forall|j: int| 0 <= j < i ==> (#[trigger] self@[j]).spec_id() != id@
                },
    {
        let mut i: usize = 0;
        while i < self.factories.len()
            invariant
                i <= self.factories@.len(),
                forall|j: int| 0 <= j < i ==> (#[trigger] self.factories@[j]).spec_id() != id@,
            decreases self.factories@.len() - i,
        {
            let f: &F = &self.factories[i];
            if text::same_text(f.id(), id) {
                assert(self@[i as int] == *f);
                return Some(f);
            }
            i += 1;
        }
        None
    }
}

/// A backend of the caller's own. How it opens an adapter and looks for one is the caller's: the
/// registry only carries it.
#[derive(Debug)]
pub struct OwnFactory<B> {
    pub id: &'static str,
    pub name: &'static str,
    pub backend: B,
}

impl<B> CanAdapterFactory for OwnFactory<B> {
    open spec fn spec_id(&self) -> Seq<char> {
        self.id@
    }

    open spec fn spec_name(&self) -> Seq<char> {
        self.name@
    }

    fn id(&self) -> (r: &'static str) {
        self.id
    }

    fn display_name(&self) -> (r: &'static str) {
        self.name
    }
}

/// A built-in backend, or one of the caller's own.
#[derive(Debug)]
pub enum AnyFactory<B> {
    Builtin(BuiltinFactory),
    Own(OwnFactory<B>),
}

impl<B> CanAdapterFactory for AnyFactory<B> {
    open spec fn spec_id(&self) -> Seq<char> {
        match self {
            AnyFactory::Builtin(b) => b.spec_id(),
            AnyFactory::Own(f) => f.spec_id(),
        }
    }

    open spec fn spec_name(&self) -> Seq<char> {
        match self {
            AnyFactory::Builtin(b) => b.spec_name(),
            AnyFactory::Own(f) => f.spec_name(),
        }
    }

    fn id(&self) -> (r: &'static str) {
        match self {
            AnyFactory::Builtin(b) => b.id(),
            AnyFactory::Own(f) => f.id(),
        }
    }

    fn display_name(&self) -> (r: &'static str) {
        match self {
            AnyFactory::Builtin(b) => b.display_name(),
            AnyFactory::Own(f) => f.display_name(),
        }
    }
}

impl<B> AdapterRegistry<AnyFactory<B>> {
    /// The registry of the built-in backends. Others can be registered beside them.
    pub fn with_builtins() -> (r: Self)
        ensures
            r@ == seq![
                AnyFactory::<B>::Builtin(BuiltinFactory::Summit),
                AnyFactory::<B>::Builtin(BuiltinFactory::KCan),
                AnyFactory::<B>::Builtin(BuiltinFactory::SocketCan),
                AnyFactory::<B>::Builtin(BuiltinFactory::Apex),
            ],
    {
        let mut r: AdapterRegistry<AnyFactory<B>> = AdapterRegistry::new();
        r.register(AnyFactory::Builtin(BuiltinFactory::Summit));
        r.register(AnyFactory::Builtin(BuiltinFactory::KCan));
        r.register(AnyFactory::Builtin(BuiltinFactory::SocketCan));
        r.register(AnyFactory::Builtin(BuiltinFactory::Apex));
        assert(r@ =~= seq![
            AnyFactory::<B>::Builtin(BuiltinFactory::Summit),
            AnyFactory::<B>::Builtin(BuiltinFactory::KCan),
            AnyFactory::<B>::Builtin(BuiltinFactory::SocketCan),
            AnyFactory::<B>::Builtin(BuiltinFactory::Apex),
        ]);
        r
    }
}

/// The process that a lock file names, if it names one.
pub fn lock_owner(contents: &str) -> (r: Option<u32>)
    ensures
        r is Some == text::unsigned_number(text::trimmed(contents@), 10, 0xFFFF_FFFF) is Some,
        r matches Some(pid) ==> pid as nat == text::unsigned_number(
            text::trimmed(contents@),
            10,
            0xFFFF_FFFF,
        )->0,
{
    let t: Vec<char> = text::trim(contents);
    match text::parse_unsigned(t.as_slice(), 10, 0xFFFF_FFFF) {
        Some(n) => Some(n as u32),
        None => None,
    }
}

/// The availability of a backend. `owner_alive` tells that the process named by the interface's
/// lock file runs; it matters for SocketCAN only.
pub fn availability(factory: &BuiltinFactory, owner_alive: bool, present: bool) -> (r:
    AdapterAvailability)
    ensures
        r == (if *factory == BuiltinFactory::SocketCan && owner_alive {
            AdapterAvailability::InUse
        } else if present {
            AdapterAvailability::Available
        } else {
            AdapterAvailability::Absent
        }),
{
    let socketcan: bool = match factory {
        BuiltinFactory::SocketCan => true,
        _ => false,
    };
    if socketcan && owner_alive {
        AdapterAvailability::InUse
    } else if present {
        AdapterAvailability::Available
    } else {
        AdapterAvailability::Absent
    }
}

/// No two built-in backends share an identifier.
pub proof fn law_builtin_ids_differ(a: BuiltinFactory, b: BuiltinFactory)
    requires
        a.spec_id() == b.spec_id(),
    ensures
        a == b,
{
    reveal_strlit("summit");
    reveal_strlit("kcan");
    reveal_strlit("socketcan");
    reveal_strlit("apex");
    assert("summit"@.len() == 6);
    assert("socketcan"@.len() == 9);
    assert("kcan"@.len() == 4);
    assert("apex"@.len() == 4);
    assert("kcan"@[0] != "apex"@[0]);
}

} // verus!
