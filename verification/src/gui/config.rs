//! The settings of a session: as they are kept in the configuration file, and as a session needs
//! them.

use vstd::prelude::*;

use crate::adapters::{text_view, AdapterKind, AdapterKindView};
use crate::eds::{node_id_number, parse_node_id_str};
use crate::text;

verus! {

/// The log file where none is named.
pub open spec fn default_log_path() -> Seq<char> {
    "rustycan.jsonl"@
}

/// A node as it is entered: its ID and the path of its EDS file.
#[derive(Debug)]
pub struct NodeEntry {
    pub id_str: String,
    pub eds_path: String,
}

/// The mathematical value of a [`NodeEntry`].
pub struct NodeEntryView {
    pub id_str: Seq<char>,
    pub eds_path: Seq<char>,
}

impl NodeEntry {
    /// The entry over views.
    pub open spec fn view(&self) -> NodeEntryView {
        NodeEntryView { id_str: self.id_str@, eds_path: self.eds_path@ }
    }
}

impl Clone for NodeEntry {
    fn clone(&self) -> (r: Self)
        ensures
            r@ == self@,
    {
        NodeEntry { id_str: self.id_str.clone(), eds_path: self.eds_path.clone() }
    }
}

/// A DBC file as it is entered.
#[derive(Debug)]
pub struct DbcEntry {
    pub path: String,
}

impl Clone for DbcEntry {
    fn clone(&self) -> (r: Self)
        ensures
            r.path@ == self.path@,
    {
        DbcEntry { path: self.path.clone() }
    }
}

/// The views of node entries.
pub open spec fn node_views(s: Seq<NodeEntry>) -> Seq<NodeEntryView> {
    s.map_values(|n: NodeEntry| n@)
}

/// The paths of DBC entries.
pub open spec fn dbc_paths_of(s: Seq<DbcEntry>) -> Seq<Seq<char>> {
    s.map_values(|d: DbcEntry| d.path@)
}

/// Copies node entries.
pub fn copy_nodes(nodes: &Vec<NodeEntry>) -> (r: Vec<NodeEntry>)
    ensures
        node_views(r@) == node_views(nodes@),
{
    let mut out: Vec<NodeEntry> = Vec::new();
    let mut i: usize = 0;
    while i < nodes.len()
        invariant
            i <= nodes@.len(),
            out@.len() == i,
            forall|j: int| 0 <= j < i ==> (#[trigger] out@[j])@ == nodes@[j]@,
        decreases nodes@.len() - i,
    {
        out.push(nodes[i].clone());
        i += 1;
    }
    assert(node_views(out@) =~= node_views(nodes@));
    out
}

/// Copies DBC entries.
pub fn copy_dbc_files(files: &Vec<DbcEntry>) -> (r: Vec<DbcEntry>)
    ensures
        dbc_paths_of(r@) == dbc_paths_of(files@),
{
    let mut out: Vec<DbcEntry> = Vec::new();
    let mut i: usize = 0;
    while i < files.len()
        invariant
            i <= files@.len(),
            out@.len() == i,
            forall|j: int| 0 <= j < i ==> (#[trigger] out@[j]).path@ == files@[j].path@,
        decreases files@.len() - i,
    {
        out.push(files[i].clone());
        i += 1;
    }
    assert(dbc_paths_of(out@) =~= dbc_paths_of(files@));
    out
}

// ─── Persisted configuration ────────────────────────────────────────────────

/// The settings that are kept between sessions.
#[derive(Debug)]
pub struct PersistedConfig {
    pub port: String,
    pub baud: String,
    pub nodes: Vec<NodeEntry>,
    /// `None` or blank for the default log file.
    pub log_path: Option<String>,
    pub sdo_timeout_str: String,
    pub listen_only: bool,
    pub text_log: bool,
    pub adapter_kind: AdapterKind,
    pub kcan_serial: String,
    pub dbc_files: Vec<DbcEntry>,
    /// Port of the live dashboard.
    pub http_port: Option<u16>,
}

/// The mathematical value of a [`PersistedConfig`].
pub struct ConfigView {
    pub port: Seq<char>,
    pub baud: Seq<char>,
    pub nodes: Seq<NodeEntryView>,
    pub log_path: Option<Seq<char>>,
    pub sdo_timeout_str: Seq<char>,
    pub listen_only: bool,
    pub text_log: bool,
    pub adapter_kind: AdapterKindView,
    pub kcan_serial: Seq<char>,
    pub dbc_files: Seq<Seq<char>>,
    pub http_port: Option<u16>,
}

/// The nodes whose EDS file exists, and those without one; `exists` tells of each node whether its
/// file does.
pub open spec fn usable_nodes(nodes: Seq<NodeEntryView>, exists: Seq<bool>) -> Seq<NodeEntryView>
    decreases nodes.len(),
{
    if nodes.len() == 0 {
        seq![]
    } else {
        let before = usable_nodes(nodes.drop_last(), exists);
        if text::trimmed(nodes.last().eds_path).len() == 0 || exists[nodes.len() - 1] {
            before.push(nodes.last())
        } else {
            before
        }
    }
}

/// The paths that exist.
pub open spec fn existing(paths: Seq<Seq<char>>, exists: Seq<bool>) -> Seq<Seq<char>>
    decreases paths.len(),
{
    if paths.len() == 0 {
        seq![]
    } else {
        let before = existing(paths.drop_last(), exists);
        if exists[paths.len() - 1] {
            before.push(paths.last())
        } else {
            before
        }
    }
}

/// The path of the log file: the default where none is named.
pub open spec fn effective_log_path(log_path: Option<Seq<char>>) -> Seq<char> {
    match log_path {
        Some(p) => if text::trimmed(p).len() > 0 {
            p
        } else {
            default_log_path()
        },
        None => default_log_path(),
    }
}

/// Chooses the log file: the default where none is named.
pub fn choose_log_path(log_path: &Option<String>) -> (r: String)
    ensures
        r@ == effective_log_path(text_view(*log_path)),
{
    match log_path {
        Some(p) => if text::trim(p.as_str()).len() > 0 {
            p.clone()
        } else {
            "rustycan.jsonl".to_owned()
        },
        None => "rustycan.jsonl".to_owned(),
    }
}

impl PersistedConfig {
    /// The configuration over views.
    pub open spec fn view(&self) -> ConfigView {
        ConfigView {
            port: self.port@,
            baud: self.baud@,
            nodes: node_views(self.nodes@),
            log_path: text_view(self.log_path),
            sdo_timeout_str: self.sdo_timeout_str@,
            listen_only: self.listen_only,
            text_log: self.text_log,
            adapter_kind: self.adapter_kind@,
            kcan_serial: self.kcan_serial@,
            dbc_files: dbc_paths_of(self.dbc_files@),
            http_port: self.http_port,
        }
    }

    /// Drops the nodes and DBC files whose files do not exist. `eds_exists` and `dbc_exists` tell
    /// which do.
    pub fn retain_existing(&mut self, eds_exists: &[bool], dbc_exists: &[bool])
        requires
            eds_exists@.len() == old(self).nodes@.len(),
            dbc_exists@.len() == old(self).dbc_files@.len(),
        ensures
            final(self)@ == (ConfigView {
                nodes: usable_nodes(old(self)@.nodes, eds_exists@),
                dbc_files: existing(old(self)@.dbc_files, dbc_exists@),
                ..old(self)@
            }),
    {
        let ghost all = self@.nodes;
        let mut nodes: Vec<NodeEntry> = Vec::new();
        let mut i: usize = 0;
        while i < self.nodes.len()
            invariant
                i <= self.nodes@.len(),
                *self == *old(self),
                all == node_views(self.nodes@),
                eds_exists@.len() == self.nodes@.len(),
                node_views(nodes@) == usable_nodes(all.take(i as int), eds_exists@),
            decreases self.nodes@.len() - i,
        {
            assert(all.take(i + 1).drop_last() =~= all.take(i as int));
            assert(all.take(i + 1).last() == self.nodes@[i as int]@);
            if text::trim(self.nodes[i].eds_path.as_str()).len() == 0 || eds_exists[i] {
                let ghost before = nodes@;
                let n: NodeEntry = self.nodes[i].clone();
                nodes.push(n);
                assert(node_views(nodes@) =~= node_views(before).push(self.nodes@[i as int]@));
            }
            i += 1;
        }
        assert(all.take(all.len() as int) =~= all);
        let ghost paths = self@.dbc_files;
        let mut files: Vec<DbcEntry> = Vec::new();
        let mut k: usize = 0;
        while k < self.dbc_files.len()
            invariant
                k <= self.dbc_files@.len(),
                *self == *old(self),
                paths == dbc_paths_of(self.dbc_files@),
                dbc_exists@.len() == self.dbc_files@.len(),
                dbc_paths_of(files@) == existing(paths.take(k as int), dbc_exists@),
            decreases self.dbc_files@.len() - k,
        {
            assert(paths.take(k + 1).drop_last() =~= paths.take(k as int));
            assert(paths.take(k + 1).last() == self.dbc_files@[k as int].path@);
            if dbc_exists[k] {
                let ghost before = files@;
                let d: DbcEntry = self.dbc_files[k].clone();
                files.push(d);
                assert(dbc_paths_of(files@) =~= dbc_paths_of(before).push(
                    self.dbc_files@[k as int].path@,
                ));
            }
            k += 1;
        }
        assert(paths.take(paths.len() as int) =~= paths);
        self.nodes = nodes;
        self.dbc_files = files;
    }
}

// ─── Session configuration ──────────────────────────────────────────────────

/// What a session needs.
#[derive(Debug)]
pub struct SessionConfig {
    pub port: String,
    pub baud: u32,
    /// Node IDs, with the paths of their EDS files where they have one.
    pub nodes: Vec<(u8, Option<String>)>,
    pub log_path: String,
    /// No frames are transmitted.
    pub listen_only: bool,
    /// A plain-text log is written too.
    pub text_log: bool,
    pub sdo_timeout_ms: u64,
    pub block_initiate_timeout_ms: u64,
    pub block_subblock_timeout_ms: u64,
    pub block_end_timeout_ms: u64,
    /// Segments per sub-block of a block transfer.
    pub block_size: u8,
    pub adapter_kind: AdapterKind,
    pub dbc_paths: Vec<String>,
}

/// The mathematical value of a [`SessionConfig`].
pub struct SessionView {
    pub port: Seq<char>,
    pub baud: nat,
    pub nodes: Seq<(u8, Option<Seq<char>>)>,
    pub log_path: Seq<char>,
    pub listen_only: bool,
    pub text_log: bool,
    pub sdo_timeout_ms: nat,
    pub block_initiate_timeout_ms: nat,
    pub block_subblock_timeout_ms: nat,
    pub block_end_timeout_ms: nat,
    pub block_size: nat,
    pub adapter_kind: AdapterKindView,
    pub dbc_paths: Seq<Seq<char>>,
}

/// The views of nodes with their EDS paths.
pub open spec fn session_nodes(s: Seq<(u8, Option<String>)>) -> Seq<(u8, Option<Seq<char>>)> {
    s.map_values(|n: (u8, Option<String>)| (n.0, text_view(n.1)))
}

/// The texts of strings.
pub open spec fn path_views(s: Seq<String>) -> Seq<Seq<char>> {
    s.map_values(|p: String| p@)
}

impl SessionConfig {
    /// The configuration over views.
    pub open spec fn view(&self) -> SessionView {
        SessionView {
            port: self.port@,
            baud: self.baud as nat,
            nodes: session_nodes(self.nodes@),
            log_path: self.log_path@,
            listen_only: self.listen_only,
            text_log: self.text_log,
            sdo_timeout_ms: self.sdo_timeout_ms as nat,
            block_initiate_timeout_ms: self.block_initiate_timeout_ms as nat,
            block_subblock_timeout_ms: self.block_subblock_timeout_ms as nat,
            block_end_timeout_ms: self.block_end_timeout_ms as nat,
            block_size: self.block_size as nat,
            adapter_kind: self.adapter_kind@,
            dbc_paths: path_views(self.dbc_paths@),
        }
    }
}

/// The baud rate that a text gives.
pub open spec fn baud_number(s: Seq<char>) -> Option<nat> {
    text::unsigned_number(text::trimmed(s), 10, 0xFFFF_FFFF)
}

/// Parses a baud rate.
pub fn parse_baud(s: &str) -> (r: Option<u32>)
    ensures
        r is Some == baud_number(s@) is Some,
        r matches Some(b) ==> baud_number(s@) == Some(b as nat),
{
    let t: Vec<char> = text::trim(s);
    match text::parse_unsigned(t.as_slice(), 10, 0xFFFF_FFFF) {
        Some(n) => Some(n as u32),
        None => None,
    }
}

/// The timeout in milliseconds that a text gives: a positive number.
pub open spec fn timeout_number(s: Seq<char>) -> Option<nat> {
    match text::unsigned_number(text::trimmed(s), 10, 0xFFFF_FFFF_FFFF_FFFF) {
        Some(n) => if n > 0 {
            Some(n)
        } else {
            None
        },
        None => None,
    }
}

/// The message about a timeout that is no positive number.
pub open spec fn bad_timeout_text(s: Seq<char>) -> Seq<char> {
    "SDO timeout must be a positive integer (ms), got "@ + text::debug_quoted(s)
}

/// Parses a timeout in milliseconds.
pub fn parse_timeout(s: &str) -> (r: Result<u64, String>)
    ensures
        r is Ok == timeout_number(s@) is Some,
        r matches Ok(n) ==> timeout_number(s@) == Some(n as nat),
        r matches Err(e) ==> e@ == bad_timeout_text(s@),
{
    let t: Vec<char> = text::trim(s);
    let n: u64 = match text::parse_unsigned(t.as_slice(), 10, 0xFFFF_FFFF_FFFF_FFFF) {
        Some(n) => n,
        None => 0,
    };
    if n > 0 {
        Ok(n)
    } else {
        let quoted: String = text::debug_text(s);
        Err(
            text::join2(
                "SDO timeout must be a positive integer (ms), got ",
                quoted.as_str(),
            ),
        )
    }
}

/// The message about a text that is no node ID.
pub open spec fn bad_node_text(s: Seq<char>) -> Seq<char> {
    "Invalid node ID: "@ + text::debug_quoted(s)
        + " (expected 1\u{2013}127, decimal or 0x/H hex)"@
}

/// The path in a text; `None` where it is blank.
pub open spec fn path_of(s: Seq<char>) -> Option<Seq<char>> {
    if text::trimmed(s).len() == 0 {
        None
    } else {
        Some(text::trimmed(s))
    }
}

/// The nodes of a session: entries with a blank ID are left out, and the first ID that is none is
/// reported.
pub open spec fn node_list(nodes: Seq<NodeEntryView>) -> Result<
    Seq<(u8, Option<Seq<char>>)>,
    Seq<char>,
>
    decreases nodes.len(),
{
    if nodes.len() == 0 {
        Ok(seq![])
    } else {
        match node_list(nodes.drop_last()) {
            Err(e) => Err(e),
            Ok(list) => {
                let n = nodes.last();
                let id = text::trimmed(n.id_str);
                if id.len() == 0 {
                    Ok(list)
                } else {
                    match node_id_number(id) {
                        Some(k) => Ok(list.push((k, path_of(n.eds_path)))),
                        None => Err(bad_node_text(n.id_str)),
                    }
                }
            },
        }
    }
}

proof fn lemma_first_error_stays(nodes: Seq<NodeEntryView>, n: int)
    requires
        0 <= n <= nodes.len(),
        node_list(nodes.take(n)) is Err,
    ensures
        node_list(nodes) == node_list(nodes.take(n)),
    decreases nodes.len() - n,
{
    if n < nodes.len() {
        assert(nodes.take(n + 1).drop_last() =~= nodes.take(n));
        lemma_first_error_stays(nodes, n + 1);
    } else {
        assert(nodes.take(n) =~= nodes);
    }
}

/// Parses the nodes of a session.
pub fn parse_nodes(nodes: &Vec<NodeEntry>) -> (r: Result<Vec<(u8, Option<String>)>, String>)
    ensures
        r is Ok == node_list(node_views(nodes@)) is Ok,
        r matches Ok(list) ==> session_nodes(list@) == node_list(node_views(nodes@))->Ok_0,
        r matches Err(e) ==> e@ == node_list(node_views(nodes@))->Err_0,
{
    let ghost all = node_views(nodes@);
    let mut out: Vec<(u8, Option<String>)> = Vec::new();
    let mut i: usize = 0;
    assert(session_nodes(out@) =~= seq![]);
    while i < nodes.len()
        invariant
            i <= nodes@.len(),
            all == node_views(nodes@),
            node_list(all.take(i as int)) is Ok,
            node_list(all.take(i as int))->Ok_0 == session_nodes(out@),
        decreases nodes@.len() - i,
    {
        assert(all.take(i + 1).drop_last() =~= all.take(i as int));
        assert(all.take(i + 1).last() == nodes@[i as int]@);
        let id: Vec<char> = text::trim(nodes[i].id_str.as_str());
        if id.len() > 0 {
            match parse_node_id_str(id.as_slice()) {
                Some(k) => {
                    let path: Vec<char> = text::trim(nodes[i].eds_path.as_str());
                    let p: Option<String> = if path.len() == 0 {
                        None
                    } else {
                        Some(text::string_of(path.as_slice()))
                    };
                    let ghost added = (k, text_view(p));
                    let ghost before = out@;
                    out.push((k, p));
                    assert(session_nodes(out@) =~= session_nodes(before).push(added));
                },
                None => {
                    let quoted: String = text::debug_text(nodes[i].id_str.as_str());
                    let mut m: String = "Invalid node ID: ".to_owned();
                    text::push_str(&mut m, quoted.as_str());
                    text::push_str(&mut m, " (expected 1\u{2013}127, decimal or 0x/H hex)");
                    proof {
                        lemma_first_error_stays(all, i + 1);
                    }
                    return Err(m);
                },
            }
        }
        i += 1;
    }
    assert(all.take(all.len() as int) =~= all);
    Ok(out)
}

/// The paths of the DBC files of a session: blank ones are left out.
pub open spec fn path_list(paths: Seq<Seq<char>>) -> Seq<Seq<char>>
    decreases paths.len(),
{
    if paths.len() == 0 {
        seq![]
    } else {
        match path_of(paths.last()) {
            Some(p) => path_list(paths.drop_last()).push(p),
            None => path_list(paths.drop_last()),
        }
    }
}

/// The paths of the DBC files of a session.
pub fn collect_paths(files: &Vec<DbcEntry>) -> (r: Vec<String>)
    ensures
        path_views(r@) == path_list(dbc_paths_of(files@)),
{
    let ghost all = dbc_paths_of(files@);
    let mut out: Vec<String> = Vec::new();
    let mut i: usize = 0;
    assert(path_views(out@) =~= seq![]);
    while i < files.len()
        invariant
            i <= files@.len(),
            all == dbc_paths_of(files@),
            path_views(out@) == path_list(all.take(i as int)),
        decreases files@.len() - i,
    {
        assert(all.take(i + 1).drop_last() =~= all.take(i as int));
        assert(all.take(i + 1).last() == files@[i as int].path@);
        let p: Vec<char> = text::trim(files[i].path.as_str());
        if p.len() > 0 {
            let s: String = text::string_of(p.as_slice());
            let ghost before = out@;
            let ghost added = s@;
            out.push(s);
            assert(path_views(out@) =~= path_views(before).push(added));
        }
        i += 1;
    }
    assert(all.take(all.len() as int) =~= all);
    out
}

/// The settings of a session that texts give, where each is valid.
pub open spec fn session_of(
    port: Seq<char>,
    baud: nat,
    nodes: Seq<(u8, Option<Seq<char>>)>,
    log_path: Seq<char>,
    listen_only: bool,
    text_log: bool,
    sdo_timeout_ms: nat,
    adapter_kind: AdapterKindView,
    dbc_paths: Seq<Seq<char>>,
) -> SessionView {
    SessionView {
        port: text::trimmed(port),
        baud,
        nodes,
        log_path,
        listen_only,
        text_log,
        sdo_timeout_ms,
        block_initiate_timeout_ms: 1000,
        block_subblock_timeout_ms: 500,
        block_end_timeout_ms: 1000,
        block_size: 64,
        adapter_kind,
        dbc_paths,
    }
}

/// The session that a configuration asks for; else the first thing that is wrong with it.
pub open spec fn configured_session(c: ConfigView) -> Result<SessionView, Seq<char>> {
    match (baud_number(c.baud), timeout_number(c.sdo_timeout_str), node_list(c.nodes)) {
        (None, _, _) => Err("Invalid baud rate in config: "@ + text::debug_quoted(c.baud)),
        (Some(_), None, _) => Err(bad_timeout_text(c.sdo_timeout_str)),
        (Some(_), Some(_), Err(e)) => Err(e),
        (Some(baud), Some(timeout), Ok(nodes)) => Ok(
            session_of(
                c.port,
                baud,
                nodes,
                effective_log_path(c.log_path),
                c.listen_only,
                c.text_log,
                timeout,
                c.adapter_kind,
                path_list(c.dbc_files),
            ),
        ),
    }
}

/// Sets up a session from a configuration.
pub fn load_session_config(config: &PersistedConfig) -> (r: Result<SessionConfig, String>)
    ensures
        r is Ok == configured_session(config@) is Ok,
        r matches Ok(s) ==> s@ == configured_session(config@)->Ok_0,
        r matches Err(e) ==> e@ == configured_session(config@)->Err_0,
{
    let baud: u32 = match parse_baud(config.baud.as_str()) {
        Some(b) => b,
        None => {
            let quoted: String = text::debug_text(config.baud.as_str());
            return Err(text::join2("Invalid baud rate in config: ", quoted.as_str()));
        },
    };
    let sdo_timeout_ms: u64 = match parse_timeout(config.sdo_timeout_str.as_str()) {
        Ok(n) => n,
        Err(e) => {
            return Err(e);
        },
    };
    let nodes: Vec<(u8, Option<String>)> = match parse_nodes(&config.nodes) {
        Ok(list) => list,
        Err(e) => {
            return Err(e);
        },
    };
    let port: Vec<char> = text::trim(config.port.as_str());
    Ok(
        SessionConfig {
            port: text::string_of(port.as_slice()),
            baud,
            nodes,
            log_path: choose_log_path(&config.log_path),
            listen_only: config.listen_only,
            text_log: config.text_log,
            sdo_timeout_ms,
            block_initiate_timeout_ms: 1000,
            block_subblock_timeout_ms: 500,
            block_end_timeout_ms: 1000,
            block_size: 64,
            adapter_kind: config.adapter_kind.clone(),
            dbc_paths: collect_paths(&config.dbc_files),
        },
    )
}

// ─── Laws ───────────────────────────────────────────────────────────────────

/// Entries with a blank ID do not count: a session may do without nodes.
pub proof fn law_blank_nodes_ignored(nodes: Seq<NodeEntryView>)
    requires
        forall|i: int|
            0 <= i < nodes.len() ==> text::trimmed((#[trigger] nodes[i]).id_str).len() == 0,
    ensures
        node_list(nodes) == Ok::<Seq<(u8, Option<Seq<char>>)>, Seq<char>>(seq![]),
    decreases nodes.len(),
{
    if nodes.len() > 0 {
        assert forall|i: int| 0 <= i < nodes.drop_last().len() implies text::trimmed(
            (#[trigger] nodes.drop_last()[i]).id_str,
        ).len() == 0 by {
            assert(nodes.drop_last()[i] == nodes[i]);
        }
        law_blank_nodes_ignored(nodes.drop_last());
    }
}

/// Nothing is dropped from a configuration whose files all exist.
pub proof fn law_existing_files_stay(
    nodes: Seq<NodeEntryView>,
    node_exists: Seq<bool>,
    paths: Seq<Seq<char>>,
    path_exists: Seq<bool>,
)
    requires
        node_exists.len() >= nodes.len(),
        path_exists.len() >= paths.len(),
        forall|i: int| 0 <= i < nodes.len() ==> #[trigger] node_exists[i],
        forall|i: int| 0 <= i < paths.len() ==> #[trigger] path_exists[i],
    ensures
        usable_nodes(nodes, node_exists) == nodes,
        existing(paths, path_exists) == paths,
    decreases nodes.len() + paths.len(),
{
    if nodes.len() > 0 {
        law_existing_files_stay(nodes.drop_last(), node_exists, seq![], path_exists);
        assert(node_exists[nodes.len() - 1]);
        assert(nodes.drop_last().push(nodes.last()) =~= nodes);
    } else {
        assert(usable_nodes(nodes, node_exists) =~= nodes);
    }
    if paths.len() > 0 {
        law_existing_files_stay(seq![], node_exists, paths.drop_last(), path_exists);
        assert(path_exists[paths.len() - 1]);
        assert(paths.drop_last().push(paths.last()) =~= paths);
    } else {
        assert(existing(paths, path_exists) =~= paths);
    }
}

/// The nodes that are kept are, in order, exactly those without an EDS file and those whose file
/// exists; of the other files exactly those that exist are kept.
pub proof fn law_missing_files_dropped(
    nodes: Seq<NodeEntryView>,
    node_exists: Seq<bool>,
    paths: Seq<Seq<char>>,
    path_exists: Seq<bool>,
)
    ensures
        forall|n: NodeEntryView|
            #![trigger usable_nodes(nodes, node_exists).contains(n)]
            usable_nodes(nodes, node_exists).contains(n) <==> exists|i: int|
                0 <= i < nodes.len() && #[trigger] nodes[i] == n && (text::trimmed(n.eds_path).len()
                    == 0 || node_exists[i]),
        forall|p: Seq<char>|
            #![trigger existing(paths, path_exists).contains(p)]
            existing(paths, path_exists).contains(p) <==> exists|i: int|
                0 <= i < paths.len() && #[trigger] paths[i] == p && path_exists[i],
{
    lemma_usable(nodes, node_exists);
    lemma_existing(paths, path_exists);
}

proof fn lemma_usable(nodes: Seq<NodeEntryView>, exists_: Seq<bool>)
    ensures
        forall|n: NodeEntryView|
            #![trigger usable_nodes(nodes, exists_).contains(n)]
            usable_nodes(nodes, exists_).contains(n) <==> exists|i: int|
                0 <= i < nodes.len() && #[trigger] nodes[i] == n && (text::trimmed(n.eds_path).len()
                    == 0 || exists_[i]),
    decreases nodes.len(),
{
    if nodes.len() > 0 {
        let init = nodes.drop_last();
        let last = nodes.last();
        lemma_usable(init, exists_);
        let u = usable_nodes(nodes, exists_);
        let before = usable_nodes(init, exists_);
        let kept = text::trimmed(last.eds_path).len() == 0 || exists_[nodes.len() - 1];
        assert forall|n: NodeEntryView| #[trigger] u.contains(n) <==> exists|i: int|
            0 <= i < nodes.len() && #[trigger] nodes[i] == n && (text::trimmed(n.eds_path).len()
                == 0 || exists_[i]) by {
            if u.contains(n) {
                let k = choose|k: int| 0 <= k < u.len() && u[k] == n;
                if k < before.len() {
                    assert(before[k] == n);
                    assert(before.contains(n));
                    let i = choose|i: int|
                        0 <= i < init.len() && #[trigger] init[i] == n && (text::trimmed(
                            n.eds_path,
                        ).len() == 0 || exists_[i]);
                    assert(nodes[i] == n);
                } else {
                    assert(nodes[nodes.len() - 1] == n);
                }
            }
            if exists|i: int|
                0 <= i < nodes.len() && #[trigger] nodes[i] == n && (text::trimmed(n.eds_path).len()
                    == 0 || exists_[i]) {
                let i = choose|i: int|
                    0 <= i < nodes.len() && #[trigger] nodes[i] == n && (text::trimmed(
                        n.eds_path,
                    ).len() == 0 || exists_[i]);
                if i < init.len() {
                    assert(init[i] == n);
                    assert(before.contains(n));
                    let k = choose|k: int| 0 <= k < before.len() && before[k] == n;
                    assert(u[k] == n);
                } else {
                    assert(kept);
                    assert(u[u.len() - 1] == n);
                }
            }
        }
    }
}

proof fn lemma_existing(paths: Seq<Seq<char>>, exists_: Seq<bool>)
    ensures
        forall|p: Seq<char>|
            #![trigger existing(paths, exists_).contains(p)]
            existing(paths, exists_).contains(p) <==> exists|i: int|
                0 <= i < paths.len() && #[trigger] paths[i] == p && exists_[i],
    decreases paths.len(),
{
    if paths.len() > 0 {
        let init = paths.drop_last();
        lemma_existing(init, exists_);
        let u = existing(paths, exists_);
        let before = existing(init, exists_);
        assert forall|p: Seq<char>| #[trigger] u.contains(p) <==> exists|i: int|
            0 <= i < paths.len() && #[trigger] paths[i] == p && exists_[i] by {
            if u.contains(p) {
                let k = choose|k: int| 0 <= k < u.len() && u[k] == p;
                if k < before.len() {
                    assert(before[k] == p);
                    assert(before.contains(p));
                    let i = choose|i: int|
                        0 <= i < init.len() && #[trigger] init[i] == p && exists_[i];
                    assert(paths[i] == p);
                } else {
                    assert(paths[paths.len() - 1] == p);
                }
            }
            if exists|i: int| 0 <= i < paths.len() && #[trigger] paths[i] == p && exists_[i] {
                let i = choose|i: int| 0 <= i < paths.len() && #[trigger] paths[i] == p && exists_[i];
                if i < init.len() {
                    assert(init[i] == p);
                    assert(before.contains(p));
                    let k = choose|k: int| 0 <= k < before.len() && before[k] == p;
                    assert(u[k] == p);
                } else {
                    assert(u[u.len() - 1] == p);
                }
            }
        }
    }
}

/// A session is set up from a configuration just where the bitrate is a number of 32 bits, the
/// timeout a positive one, and every node that is not blank has an ID; it then has these, the log
/// file that was named and every DBC file that is not blank.
pub proof fn law_session_as_configured(c: ConfigView)
    ensures
        configured_session(c) is Ok <==> (text::unsigned_number(
            text::trimmed(c.baud),
            10,
            0xFFFF_FFFF,
        ) is Some && (text::unsigned_number(
            text::trimmed(c.sdo_timeout_str),
            10,
            0xFFFF_FFFF_FFFF_FFFF,
        ) matches Some(ms) && ms > 0) && forall|i: int|
            0 <= i < c.nodes.len() ==> text::trimmed((#[trigger] c.nodes[i]).id_str).len() == 0
                || node_id_number(text::trimmed(c.nodes[i].id_str)) is Some),
        configured_session(c) matches Ok(s) ==> {
            &&& s.port == text::trimmed(c.port)
            &&& text::unsigned_number(text::trimmed(c.baud), 10, 0xFFFF_FFFF) == Some(s.baud)
            &&& text::unsigned_number(
                text::trimmed(c.sdo_timeout_str),
                10,
                0xFFFF_FFFF_FFFF_FFFF,
            ) == Some(s.sdo_timeout_ms)
            &&& s.listen_only == c.listen_only
            &&& s.text_log == c.text_log
            &&& s.adapter_kind == c.adapter_kind
            &&& c.log_path matches Some(p) ==> (text::trimmed(p).len() > 0 ==> s.log_path == p)
        },
{
    lemma_node_list_ok(c.nodes);
}

proof fn lemma_node_list_ok(nodes: Seq<NodeEntryView>)
    ensures
        node_list(nodes) is Ok <==> forall|i: int|
            0 <= i < nodes.len() ==> text::trimmed((#[trigger] nodes[i]).id_str).len() == 0
                || node_id_number(text::trimmed(nodes[i].id_str)) is Some,
    decreases nodes.len(),
{
    if nodes.len() > 0 {
        let init = nodes.drop_last();
        lemma_node_list_ok(init);
        assert(nodes[nodes.len() - 1] == nodes.last());
        if node_list(nodes) is Ok {
            assert forall|i: int| 0 <= i < nodes.len() implies text::trimmed(
                (#[trigger] nodes[i]).id_str,
            ).len() == 0 || node_id_number(text::trimmed(nodes[i].id_str)) is Some by {
                if i < init.len() {
                    assert(init[i] == nodes[i]);
                }
            }
        }
        if forall|i: int|
            0 <= i < nodes.len() ==> text::trimmed((#[trigger] nodes[i]).id_str).len() == 0
                || node_id_number(text::trimmed(nodes[i].id_str)) is Some {
            assert forall|i: int| 0 <= i < init.len() implies text::trimmed(
                (#[trigger] init[i]).id_str,
            ).len() == 0 || node_id_number(text::trimmed(init[i].id_str)) is Some by {
                assert(init[i] == nodes[i]);
            }
        }
    }
}

} // verus!
