//! Application namespace: a 16-bit code partitions protocol traffic by the
//! consuming application.

use vstd::prelude::*;

verus! {

/// Code of the system Storm app.
pub const STORM_APP_SYSTEM: u16 = 0x0000;
/// Code of the chat messaging app.
pub const STORM_APP_CHAT: u16 = 0x0001;
/// Code of the file transfer app.
pub const STORM_APP_FILE_TRANSFER: u16 = 0x0002;
/// Code of the distributed storage app.
pub const STORM_APP_STORAGE: u16 = 0x0003;
/// Code of the distributed search app.
pub const STORM_APP_SEARCH: u16 = 0x0004;
/// Code of the RGB smart contract distribution app.
pub const STORM_APP_RGB_CONTRACTS: u16 = 0x0010;
/// Code of the RGB state transfer app.
pub const STORM_APP_RGB_TRANSFERS: u16 = 0x0011;
/// Mask of the vendor range: any code with this bit set is vendor-specific.
pub const STORM_APP_VENDOR_MASK: u16 = 0x8000;

/// Storm application identifier.
///
/// Codes up to `0x8000` (exclusive) are reserved for applications registered
/// as LNPBP standards; the range with the top bit set is free for vendor use
/// without registration.
#[derive(Copy, Clone, Debug, PartialEq, Eq, Structural)]
pub enum StormApp {
    /// System Storm app.
    System,
    /// Chat messaging app.
    Chat,
    /// File transfer app.
    FileTransfer,
    /// Distributed storage app.
    Storage,
    /// Distributed data storage and search app.
    Search,
    /// RGB smart contract distribution network.
    RgbContracts,
    /// State transfers between RGB smart contracts.
    RgbTransfers,
    /// Reserved code of a not-yet-standardized future app.
    Future(u16),
    /// Vendor-specific application outside of the standards process.
    Vendor(u16),
}

impl StormApp {
    /// The 16-bit wire code of this application.
    pub open spec fn spec_code(self) -> u16 {
        match self {
            StormApp::System => STORM_APP_SYSTEM,
            StormApp::Chat => STORM_APP_CHAT,
            StormApp::FileTransfer => STORM_APP_FILE_TRANSFER,
            StormApp::Storage => STORM_APP_STORAGE,
            StormApp::Search => STORM_APP_SEARCH,
            StormApp::RgbContracts => STORM_APP_RGB_CONTRACTS,
            StormApp::RgbTransfers => STORM_APP_RGB_TRANSFERS,
            StormApp::Future(code) => code,
            StormApp::Vendor(code) => code,
        }
    }

    /// The unique application carrying a given 16-bit code.
    pub open spec fn spec_from_code(code: u16) -> StormApp {
        if code == STORM_APP_SYSTEM {
            StormApp::System
        } else if code == STORM_APP_CHAT {
            StormApp::Chat
        } else if code == STORM_APP_FILE_TRANSFER {
            StormApp::FileTransfer
        } else if code == STORM_APP_STORAGE {
            StormApp::Storage
        } else if code == STORM_APP_SEARCH {
            StormApp::Search
        } else if code == STORM_APP_RGB_CONTRACTS {
            StormApp::RgbContracts
        } else if code == STORM_APP_RGB_TRANSFERS {
            StormApp::RgbTransfers
        } else if code & STORM_APP_VENDOR_MASK != 0 {
            StormApp::Vendor(code)
        } else {
            StormApp::Future(code)
        }
    }

    /// A value is canonical when its payload code lies in the range the
    /// variant stands for: `Future` carries an unassigned standard code and
    /// `Vendor` a code with the vendor bit set. Only canonical values are
    /// produced by [`StormApp::from_code`].
    pub open spec fn wf(self) -> bool {
        match self {
            StormApp::Future(code) => {
                &&& code & STORM_APP_VENDOR_MASK == 0
                &&& code != STORM_APP_SYSTEM
                &&& code != STORM_APP_CHAT
                &&& code != STORM_APP_FILE_TRANSFER
                &&& code != STORM_APP_STORAGE
                &&& code != STORM_APP_SEARCH
                &&& code != STORM_APP_RGB_CONTRACTS
                &&& code != STORM_APP_RGB_TRANSFERS
            },
            StormApp::Vendor(code) => code & STORM_APP_VENDOR_MASK != 0,
            _ => true,
        }
    }

    /// Returns the 16-bit wire code of this application.
    pub fn app_code(self) -> (code: u16)
        ensures
            code == self.spec_code(),
    {
        match self {
            StormApp::System => STORM_APP_SYSTEM,
            StormApp::Chat => STORM_APP_CHAT,
            StormApp::FileTransfer => STORM_APP_FILE_TRANSFER,
            StormApp::Storage => STORM_APP_STORAGE,
            StormApp::Search => STORM_APP_SEARCH,
            StormApp::RgbContracts => STORM_APP_RGB_CONTRACTS,
            StormApp::RgbTransfers => STORM_APP_RGB_TRANSFERS,
            StormApp::Future(code) => code,
            StormApp::Vendor(code) => code,
        }
    }

    /// Maps a 16-bit code to its application; total and lossless, so every
    /// code denotes exactly one application.
    pub fn from_code(code: u16) -> (app: StormApp)
        ensures
            app == Self::spec_from_code(code),
            app.wf(),
            app.spec_code() == code,
    {
        proof {
            Self::lemma_from_code_total(code);
        }
        match code {
            STORM_APP_SYSTEM => StormApp::System,
            STORM_APP_CHAT => StormApp::Chat,
            STORM_APP_STORAGE => StormApp::Storage,
            STORM_APP_FILE_TRANSFER => StormApp::FileTransfer,
            STORM_APP_SEARCH => StormApp::Search,
            STORM_APP_RGB_CONTRACTS => StormApp::RgbContracts,
            STORM_APP_RGB_TRANSFERS => StormApp::RgbTransfers,
            vendor if vendor & STORM_APP_VENDOR_MASK > 0 => StormApp::Vendor(vendor),
            future => StormApp::Future(future),
        }
    }

    /// Every canonical application is recovered from its own code: the code
    /// conversion round-trips.
    pub proof fn lemma_code_roundtrip(app: StormApp)
        requires
            app.wf(),
        ensures
            Self::spec_from_code(app.spec_code()) == app,
    {
        match app {
            StormApp::Vendor(code) => {
                assert(code & 0x8000u16 != 0 ==> code >= 0x8000) by (bit_vector);
            },
            _ => {},
        }
    }

    /// Every 16-bit code maps to a canonical application that carries that
    /// very code: the conversion is total and lossless in both directions.
    pub proof fn lemma_from_code_total(code: u16)
        ensures
            Self::spec_from_code(code).wf(),
            Self::spec_from_code(code).spec_code() == code,
    {
        assert(code & 0x8000u16 != 0 ==> code >= 0x8000) by (bit_vector);
    }
}

impl From<u16> for StormApp {
    fn from(code: u16) -> (app: StormApp) {
        StormApp::from_code(code)
    }
}

impl vstd::std_specs::convert::FromSpecImpl<u16> for StormApp {
    open spec fn obeys_from_spec() -> bool {
        true
    }

    open spec fn from_spec(code: u16) -> StormApp {
        StormApp::spec_from_code(code)
    }
}

impl From<StormApp> for u16 {
    fn from(app: StormApp) -> (code: u16) {
        app.app_code()
    }
}

impl vstd::std_specs::convert::FromSpecImpl<StormApp> for u16 {
    open spec fn obeys_from_spec() -> bool {
        true
    }

    open spec fn from_spec(app: StormApp) -> u16 {
        app.spec_code()
    }
}

/// Rank of an application's variant, the primary key of the order a
/// sorted application set is serialized in.
pub open spec fn app_rank(a: StormApp) -> int {
    match a {
        StormApp::System => 0,
        StormApp::Chat => 1,
        StormApp::FileTransfer => 2,
        StormApp::Storage => 3,
        StormApp::Search => 4,
        StormApp::RgbContracts => 5,
        StormApp::RgbTransfers => 6,
        StormApp::Future(_) => 7,
        StormApp::Vendor(_) => 8,
    }
}

/// The code an application's variant carries; zero for the well-known
/// variants.
pub open spec fn app_arg(a: StormApp) -> u16 {
    match a {
        StormApp::Future(code) => code,
        StormApp::Vendor(code) => code,
        _ => 0,
    }
}

/// Strict order of applications, as a sorted application set is
/// serialized: by variant rank, then by carried code.
pub open spec fn app_lt(a: StormApp, b: StormApp) -> bool {
    app_rank(a) < app_rank(b) || (app_rank(a) == app_rank(b) && app_arg(a) < app_arg(b))
}

/// A list of applications is strictly ascending.
pub open spec fn sorted_apps(s: Seq<StormApp>) -> bool {
    forall|k: int| 0 <= k && k + 1 < s.len() ==> app_lt(#[trigger] s[k], s[k + 1])
}

impl StormApp {
    /// Rank of the variant in the serialization order.
    fn rank(&self) -> (r: u8)
        ensures
            r as int == app_rank(*self),
    {
        match self {
            StormApp::System => 0,
            StormApp::Chat => 1,
            StormApp::FileTransfer => 2,
            StormApp::Storage => 3,
            StormApp::Search => 4,
            StormApp::RgbContracts => 5,
            StormApp::RgbTransfers => 6,
            StormApp::Future(_) => 7,
            StormApp::Vendor(_) => 8,
        }
    }

    /// The code the variant carries; zero for the well-known variants.
    fn arg(&self) -> (r: u16)
        ensures
            r == app_arg(*self),
    {
        match self {
            StormApp::Future(code) => *code,
            StormApp::Vendor(code) => *code,
            _ => 0,
        }
    }

    /// Compares two applications in the set serialization order.
    pub fn lt(&self, other: &StormApp) -> (r: bool)
        ensures
            r == app_lt(*self, *other),
    {
        let ra = self.rank();
        let rb = other.rank();
        if ra < rb {
            true
        } else if ra > rb {
            false
        } else {
            self.arg() < other.arg()
        }
    }
}

/// The application order is total: distinct applications compare one way
/// or the other, never both.
pub proof fn lemma_app_lt_trichotomy(a: StormApp, b: StormApp)
    ensures
        a == b <==> !app_lt(a, b) && !app_lt(b, a),
        !(app_lt(a, b) && app_lt(b, a)),
{
}

/// Inserts an application into a strictly ascending list, keeping it
/// strictly ascending. An application already present is left alone, so
/// the list behaves as a sorted set.
pub fn insert_sorted_app(apps: &mut Vec<StormApp>, app: StormApp)
    requires
        sorted_apps(old(apps)@),
    ensures
        sorted_apps(final(apps)@),
        final(apps)@.contains(app),
        forall|a: StormApp|
            #[trigger] final(apps)@.contains(a) <==> old(apps)@.contains(a) || a == app,
        final(apps)@.len() <= old(apps)@.len() + 1,
{
    let n = apps.len();
    let mut k: usize = 0;
    while k < n
        invariant
            k <= n,
            n == apps@.len(),
            apps@ == old(apps)@,
            sorted_apps(apps@),
            forall|m: int| 0 <= m < k ==> app_lt(#[trigger] apps@[m], app),
        decreases n - k,
    {
        if !apps[k].lt(&app) {
            if apps[k] == app {
                assert(apps@.contains(app));
                return ;
            }
            proof {
                lemma_app_lt_trichotomy(apps@[k as int], app);
                lemma_insert_sorted_app_facts(apps@, app, k as int);
            }
            apps.insert(k, app);
            return ;
        }
        k += 1;
    }
    proof {
        lemma_insert_sorted_app_facts(apps@, app, n as int);
    }
    apps.push(app);
    proof {
        assert(apps@ =~= old(apps)@.insert(n as int, app));
    }
}

/// Inserting a fresh application at its order position keeps a list
/// strictly ascending, and the new list holds exactly the old
/// applications plus the inserted one.
proof fn lemma_insert_sorted_app_facts(apps: Seq<StormApp>, app: StormApp, p: int)
    requires
        sorted_apps(apps),
        0 <= p <= apps.len(),
        forall|m: int| 0 <= m < p ==> app_lt(#[trigger] apps[m], app),
        p < apps.len() ==> app_lt(app, apps[p]),
    ensures
        sorted_apps(apps.insert(p, app)),
        apps.insert(p, app).contains(app),
        forall|a: StormApp|
            #[trigger] apps.insert(p, app).contains(a) <==> apps.contains(a) || a == app,
{
    let out = apps.insert(p, app);
    assert(out[p] == app);
    assert(out.contains(app));
    assert forall|k: int| 0 <= k && k + 1 < out.len() implies app_lt(#[trigger] out[k], out[k + 1])
        by {
        if k + 1 < p {
            assert(out[k] == apps[k] && out[k + 1] == apps[k + 1]);
        } else if k + 1 == p {
            assert(out[k] == apps[k]);
        } else if k == p {
            assert(out[k + 1] == apps[k]);
        } else {
            assert(out[k] == apps[k - 1] && out[k + 1] == apps[k]);
        }
    }
    assert forall|a: StormApp| #[trigger] out.contains(a) implies apps.contains(a) || a == app by {
        let k = choose|k: int| 0 <= k < out.len() && out[k] == a;
        if k < p {
            assert(apps[k] == a);
        } else if k > p {
            assert(apps[k - 1] == a);
        }
    }
    assert forall|a: StormApp| apps.contains(a) implies #[trigger] out.contains(a) by {
        let k = choose|k: int| 0 <= k < apps.len() && apps[k] == a;
        if k < p {
            assert(out[k] == a);
        } else {
            assert(out[k + 1] == a);
        }
    }
}

/// Checks that a list of applications is strictly ascending.
pub fn check_sorted_apps(apps: &Vec<StormApp>) -> (r: bool)
    ensures
        r == sorted_apps(apps@),
{
    let n = apps.len();
    if n <= 1 {
        return true;
    }
    let mut k: usize = 0;
    while k + 1 < n
        invariant
            k + 1 <= n,
            n == apps@.len(),
            forall|m: int| 0 <= m && m + 1 < k + 1 ==> app_lt(#[trigger] apps@[m], apps@[m + 1]),
        decreases n - k,
    {
        if !apps[k].lt(&apps[k + 1]) {
            assert(!app_lt(apps@[k as int], apps@[k as int + 1]));
            return false;
        }
        k += 1;
    }
    true
}

} // verus!
