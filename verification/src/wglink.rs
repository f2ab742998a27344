//! What to tell `wg(8)` and `ip(8)`, and how to read what they answer.

use vstd::prelude::*;
use vstd::string::*;
use crate::num;
use crate::strmap::StrMap;
use crate::text;

verus! {

/// One peer to install on the interface. `allowed_ips` may be empty: the peer
/// is then on the device, so that the kernel attempts handshakes, and claims no
/// route.
#[derive(Debug, Clone, PartialEq, Eq)]
pub struct PeerSpec {
    pub pub_key_b64: String,
    pub endpoint: Option<String>,
    pub allowed_ips: Vec<String>,
    pub keepalive_secs: Option<u32>,
}

/// The state of one peer of the device, as observed.
#[derive(Debug, Clone)]
pub struct PeerInfo {
    pub pub_key_b64: String,
    pub endpoint: Option<String>,
    /// Unix time of the last handshake; 0 is never.
    pub last_handshake_unix: i64,
    pub rx_bytes: u64,
    pub tx_bytes: u64,
}

impl Default for PeerInfo {
    fn default() -> (r: Self)
        ensures
            r.pub_key_b64@.len() == 0,
            r.endpoint is None,
            r.last_handshake_unix == 0,
            r.rx_bytes == 0,
            r.tx_bytes == 0,
    {
        PeerInfo {
            pub_key_b64: String::new(),
            endpoint: None,
            last_handshake_unix: 0,
            rx_bytes: 0,
            tx_bytes: 0,
        }
    }
}

/// What a `PeerSpec` is, as texts and numbers.
#[verifier::ext_equal]
pub struct SpecModel {
    pub pub_key: Seq<char>,
    pub endpoint: Option<Seq<char>>,
    pub allowed_ips: Seq<Seq<char>>,
    pub keepalive: Option<u32>,
}

/// What a `PeerInfo` is, as texts and numbers.
#[verifier::ext_equal]
pub struct InfoModel {
    pub pub_key: Seq<char>,
    pub endpoint: Option<Seq<char>>,
    pub last_handshake: int,
    pub rx: nat,
    pub tx: nat,
}

impl View for PeerSpec {
    type V = SpecModel;

    open spec fn view(&self) -> SpecModel {
        SpecModel {
            pub_key: self.pub_key_b64@,
            endpoint: text::opt_text(self.endpoint),
            allowed_ips: text::texts(self.allowed_ips@),
            keepalive: self.keepalive_secs,
        }
    }
}

impl View for PeerInfo {
    type V = InfoModel;

    open spec fn view(&self) -> InfoModel {
        InfoModel {
            pub_key: self.pub_key_b64@,
            endpoint: text::opt_text(self.endpoint),
            last_handshake: self.last_handshake_unix as int,
            rx: self.rx_bytes as nat,
            tx: self.tx_bytes as nat,
        }
    }
}

/// The models of a sequence of peers.
pub open spec fn spec_models(v: Seq<PeerSpec>) -> Seq<SpecModel> {
    v.map_values(|p: PeerSpec| p@)
}

// ---------------------------------------------------------------------------
// Peer configuration
// ---------------------------------------------------------------------------
/// The line that sets a peer's endpoint, where it has one.
pub open spec fn endpoint_line(e: Option<Seq<char>>) -> Seq<char> {
    match e {
        Some(e) => "Endpoint = "@ + e + "\n"@,
        None => Seq::empty(),
    }
}

/// The line that sets a peer's keepalive, where it has one.
pub open spec fn keepalive_line(k: Option<u32>) -> Seq<char> {
    match k {
        Some(k) => "PersistentKeepalive = "@ + num::decimal(k as nat) + "\n"@,
        None => Seq::empty(),
    }
}

/// The section that configures one peer.
pub open spec fn peer_section(p: SpecModel) -> Seq<char> {
    "[Peer]\nPublicKey = "@ + p.pub_key + "\nAllowedIPs = "@ + text::joined(p.allowed_ips, ", "@)
        + "\n"@ + endpoint_line(p.endpoint) + keepalive_line(p.keepalive) + "\n"@
}

/// The line that sets a peer's endpoint, where it has one.
fn render_endpoint(e: &Option<String>) -> (r: String)
    ensures
        r@ == endpoint_line(text::opt_text(*e)),
{
    match e {
        Some(e) => "Endpoint = ".to_owned().concat(e.as_str()).concat("\n"),
        None => String::new(),
    }
}

/// The line that sets a peer's keepalive, where it has one.
fn render_keepalive(k: Option<u32>) -> (r: String)
    ensures
        r@ == keepalive_line(k),
{
    match k {
        Some(k) => "PersistentKeepalive = ".to_owned().concat(
            num::show(k as u64).as_str(),
        ).concat("\n"),
        None => String::new(),
    }
}

/// The section that configures one peer.
fn render_peer(p: &PeerSpec) -> (r: String)
    ensures
        r@ == peer_section(p@),
{
    assert(text::texts(p.allowed_ips@).skip(0) =~= text::texts(p.allowed_ips@));
    "[Peer]\nPublicKey = ".to_owned().concat(p.pub_key_b64.as_str()).concat(
        "\nAllowedIPs = ",
    ).concat(text::join_from(&p.allowed_ips, 0, ", ").as_str()).concat("\n").concat(
        render_endpoint(&p.endpoint).as_str(),
    ).concat(render_keepalive(p.keepalive_secs).as_str()).concat("\n")
}

/// The configuration of a peer set: one section per peer, in order.
pub open spec fn syncconf(peers: Seq<SpecModel>) -> Seq<char>
    decreases peers.len(),
{
    if peers.len() == 0 {
        Seq::empty()
    } else {
        syncconf(peers.drop_last()) + peer_section(peers.last())
    }
}

/// The configuration of a peer set for `wg syncconf`. There is no `[Interface]`
/// section: the device's own state is set apart.
pub fn render_syncconf(peers: &Vec<PeerSpec>) -> (r: String)
    ensures
        r@ == syncconf(spec_models(peers@)),
        (forall|i: int| 0 <= i < peers@.len() ==> one_line_fields((#[trigger] peers@[i])@))
            ==> read_peers(text::pieces(r@, text::Sep::Char('\n'))) == spec_models(peers@),
{
    let ghost ms = spec_models(peers@);
    let mut out = String::new();
    let mut i: usize = 0;
    assert(out@ =~= syncconf(ms.take(0)));
    while i < peers.len()
        invariant
            i <= peers@.len(),
            ms == spec_models(peers@),
            out@ == syncconf(ms.take(i as int)),
        decreases peers@.len() - i,
    {
        out.append(render_peer(&peers[i]).as_str());
        proof {
            assert(ms.take(i + 1).drop_last() =~= ms.take(i as int));
            assert(ms[i as int] == peers@[i as int]@);
        }
        i = i + 1;
    }
    assert(ms.take(peers@.len() as int) =~= ms);
    proof {
        if forall|i: int| 0 <= i < peers@.len() ==> one_line_fields((#[trigger] peers@[i])@) {
            assert forall|i: int| 0 <= i < ms.len() implies one_line_fields(#[trigger] ms[i]) by {
                assert(ms[i] == peers@[i]@);
            }
            conf_reads_back(ms);
        }
    }
    out
}

// ---------------------------------------------------------------------------
// Observed peers
// ---------------------------------------------------------------------------
/// A signed number in a field; 0 where the field holds none.
pub open spec fn signed_field(f: Seq<char>) -> int {
    match num::signed_value(f) {
        Ok(n) => n,
        Err(_) => 0,
    }
}

/// A 64-bit count in a field; 0 where the field holds none.
pub open spec fn count_field(f: Seq<char>) -> nat {
    match num::unsigned_value(f, 0xffff_ffff_ffff_ffff) {
        Ok(n) => n,
        Err(_) => 0,
    }
}

/// An endpoint field; `(none)` and an empty field stand for none.
pub open spec fn endpoint_field(f: Seq<char>) -> Option<Seq<char>> {
    if f == "(none)"@ || f == ""@ {
        None
    } else {
        Some(f)
    }
}

/// What one row of a dump says of a peer. A blank row and one with fewer than
/// seven fields say nothing.
pub open spec fn dump_row(line: Seq<char>) -> Option<InfoModel> {
    let f = text::pieces(line, text::Sep::Char('\t'));
    if text::trimmed(line).len() == 0 || f.len() < 7 {
        None
    } else {
        Some(
            InfoModel {
                pub_key: f[0],
                endpoint: endpoint_field(f[2]),
                last_handshake: signed_field(f[4]),
                rx: count_field(f[5]),
                tx: count_field(f[6]),
            },
        )
    }
}

/// What the lines of a dump say, by peer. The first line describes the device
/// and is passed over; of two rows for one peer the later counts.
pub open spec fn dump_map(lines: Seq<Seq<char>>) -> Map<Seq<char>, InfoModel>
    decreases lines.len(),
{
    if lines.len() <= 1 {
        Map::empty()
    } else {
        match dump_row(lines.last()) {
            Some(i) => dump_map(lines.drop_last()).insert(i.pub_key, i),
            None => dump_map(lines.drop_last()),
        }
    }
}

/// The models of the entries of a map.
pub open spec fn info_models(m: Map<Seq<char>, PeerInfo>) -> Map<Seq<char>, InfoModel> {
    Map::new(|k: Seq<char>| m.contains_key(k), |k: Seq<char>| m[k]@)
}

/// The model of an entry that may be absent.
pub open spec fn opt_info(v: Option<PeerInfo>) -> Option<InfoModel> {
    match v {
        Some(i) => Some(i@),
        None => None,
    }
}

/// What one row of a dump says of a peer.
fn parse_row(line: &str) -> (r: Option<PeerInfo>)
    ensures
        opt_info(r) == dump_row(line@),
{
    let f = text::split(line, text::Sep::Char('\t'));
    let ghost fs = text::pieces(line@, text::Sep::Char('\t'));
    if text::trim(line).as_str().is_empty() || f.len() < 7 {
        return None;
    }
    assert(forall|i: int| 0 <= i < fs.len() ==> fs[i] == #[trigger] f@[i]@);
    let endpoint = if text::same(f[2].as_str(), "(none)") || text::same(f[2].as_str(), "") {
        None
    } else {
        Some(f[2].clone())
    };
    let last_handshake_unix: i64 = match num::parse_signed(f[4].as_str()) {
        Ok(n) => n,
        Err(_) => 0,
    };
    let rx_bytes: u64 = match num::parse_unsigned(f[5].as_str(), u64::MAX) {
        Ok(n) => n,
        Err(_) => 0,
    };
    let tx_bytes: u64 = match num::parse_unsigned(f[6].as_str(), u64::MAX) {
        Ok(n) => n,
        Err(_) => 0,
    };
    Some(
        PeerInfo { pub_key_b64: f[0].clone(), endpoint, last_handshake_unix, rx_bytes, tx_bytes },
    )
}

/// The rows of a dump, by peer.
proof fn dump_keys(lines: Seq<Seq<char>>)
    ensures
        forall|k: Seq<char>| #[trigger]
            dump_map(lines).contains_key(k) ==> dump_map(lines)[k].pub_key == k,
    decreases lines.len(),
{
    if lines.len() > 1 {
        dump_keys(lines.drop_last());
    }
}

/// Read the tab-separated output of `wg show <iface> dump`: a line for the
/// device, then one per peer with its key, preshared key, endpoint, allowed
/// addresses, last handshake, bytes received, bytes sent and keepalive. No
/// output is an error.
pub fn parse_wg_dump(s: &str) -> (r: Result<StrMap<PeerInfo>, WgError>)
    ensures
        r matches Ok(m) && m.wf() && info_models(m@) == dump_map(text::text_lines(s@)) && (forall|
            k: Seq<char>,
        | #[trigger] m@.contains_key(k) ==> m@[k]@.pub_key == k) && (forall|k: Seq<char>| #[trigger]
            m@.contains_key(k) <==> exists|i: int|
                1 <= i < text::text_lines(s@).len() && tells_of(
                    #[trigger] text::text_lines(s@)[i],
                    k,
                )),
{
    let lines = text::lines(s);
    let ghost ls = text::text_lines(s@);
    let mut out: StrMap<PeerInfo> = StrMap::new();
    let mut i: usize = 1;
    assert(info_models(out@) =~= Map::<Seq<char>, InfoModel>::empty());
    while i < lines.len()
        invariant
            1 <= i,
            i <= lines@.len() || lines@.len() == 0,
            ls == text::texts(lines@),
            out.wf(),
            info_models(out@) == dump_map(ls.take(if i <= ls.len() {
                i as int
            } else {
                ls.len() as int
            })),
        decreases lines@.len() - i,
    {
        proof {
            assert(ls.take(i + 1).drop_last() =~= ls.take(i as int));
            assert(ls.take(i + 1).last() == lines@[i as int]@);
        }
        let ghost was = out@;
        match parse_row(lines[i].as_str()) {
            Some(info) => {
                let key = info.pub_key_b64.clone();
                out.insert(key, info);
                assert(info_models(out@) =~= info_models(was).insert(key@, info@));
            },
            None => {},
        }
        i = i + 1;
    }
    proof {
        assert(ls.take(ls.len() as int) =~= ls);
        dump_keys(ls);
        assert forall|k: Seq<char>| #[trigger] out@.contains_key(k) implies out@[k]@.pub_key == k by {
            assert(info_models(out@).contains_key(k));
        }
        assert forall|k: Seq<char>| #[trigger] out@.contains_key(k) <==> exists|i: int|
            1 <= i < ls.len() && tells_of(#[trigger] ls[i], k) by {
            dump_says(ls, k);
            assert(info_models(out@).contains_key(k) <==> out@.contains_key(k));
        }
    }
    Ok(out)
}

// ---------------------------------------------------------------------------
// Commands
// ---------------------------------------------------------------------------
/// What goes wrong with an interface.
#[derive(Debug)]
pub enum WgError {
    /// A program could not be started, or a file not written.
    Io(String),
    /// A program failed.
    Exit { cmd: String, code: i32, stderr: String },
    /// The output of `wg show` makes no sense.
    ParseShow(String),
    /// A value is no value of its kind.
    InvalidValue(String),
}

impl WgError {
    /// The wording of the error.
    pub open spec fn wording(self) -> Seq<char> {
        match self {
            WgError::Io(e) => "io: "@ + e@,
            WgError::Exit { cmd, code, stderr } => cmd@ + ": exit "@ + num::signed_decimal(
                code as int,
            ) + ": "@ + stderr@,
            WgError::ParseShow(e) => "parse `wg show` output: "@ + e@,
            WgError::InvalidValue(e) => "invalid value: "@ + e@,
        }
    }

    /// The wording of the error.
    pub fn message(&self) -> (r: String)
        ensures
            r@ == self.wording(),
    {
        match self {
            WgError::Io(e) => "io: ".to_owned().concat(e.as_str()),
            WgError::Exit { cmd, code, stderr } => cmd.clone().concat(": exit ").concat(
                num::show_signed(*code as i64).as_str(),
            ).concat(": ").concat(stderr.as_str()),
            WgError::ParseShow(e) => "parse `wg show` output: ".to_owned().concat(e.as_str()),
            WgError::InvalidValue(e) => "invalid value: ".to_owned().concat(e.as_str()),
        }
    }
}

/// A program to run, with its arguments.
#[derive(Debug, PartialEq, Eq)]
pub struct Cmd {
    pub bin: String,
    pub args: Vec<String>,
}

/// What a command is, as texts.
#[verifier::ext_equal]
pub struct CmdModel {
    pub bin: Seq<char>,
    pub args: Seq<Seq<char>>,
}

impl View for Cmd {
    type V = CmdModel;

    open spec fn view(&self) -> CmdModel {
        CmdModel { bin: self.bin@, args: text::texts(self.args@) }
    }
}

/// The models of a sequence of commands.
pub open spec fn cmd_models(v: Seq<Cmd>) -> Seq<CmdModel> {
    v.map_values(|c: Cmd| c@)
}

/// The program and its arguments on one line.
pub open spec fn command_line(c: CmdModel) -> Seq<char> {
    c.bin + " "@ + text::joined(c.args, " "@)
}

/// How a program ended and what it printed.
#[derive(Debug)]
pub struct Output {
    pub success: bool,
    /// The exit code; none where a signal ended the program.
    pub code: Option<i32>,
    pub stdout: String,
    pub stderr: String,
}

/// The exit code, or -1 where there is none.
pub open spec fn code_or(code: Option<i32>) -> int {
    match code {
        Some(c) => c as int,
        None => -1,
    }
}

/// The error of a command that failed.
pub open spec fn is_exit(e: WgError, c: CmdModel, out: Output) -> bool {
    e matches WgError::Exit { cmd, code, stderr } && cmd@ == command_line(c) && code == code_or(
        out.code,
    ) && stderr@ == out.stderr@
}

/// The command of a program with arguments.
pub open spec fn command(bin: Seq<char>, args: Seq<Seq<char>>) -> CmdModel {
    CmdModel { bin, args }
}

impl Cmd {
    /// A command without arguments.
    fn of(bin: &str) -> (r: Self)
        ensures
            r@ == command(bin@, Seq::empty()),
    {
        let r = Cmd { bin: bin.to_owned(), args: Vec::new() };
        assert(r@.args =~= Seq::<Seq<char>>::empty());
        r
    }

    /// The command with one argument more.
    fn arg(self, a: &str) -> (r: Self)
        ensures
            r@ == command(self@.bin, self@.args.push(a@)),
    {
        let mut args = self.args;
        args.push(a.to_owned());
        assert(text::texts(args@) =~= text::texts(self.args@).push(a@));
        Cmd { bin: self.bin, args }
    }

    /// The program and its arguments on one line.
    pub fn line(&self) -> (r: String)
        ensures
            r@ == command_line(self@),
    {
        assert(text::texts(self.args@).skip(0) =~= text::texts(self.args@));
        self.bin.clone().concat(" ").concat(text::join_from(&self.args, 0, " ").as_str())
    }

    /// The error of the command, given how it ended.
    fn exit_error(&self, out: &Output) -> (r: WgError)
        ensures
            is_exit(r, self@, *out),
    {
        let code: i32 = match out.code {
            Some(c) => c,
            None => -1,
        };
        WgError::Exit { cmd: self.line(), code, stderr: out.stderr.clone() }
    }

    /// Did the command do its work? It did exactly when it ended with success.
    pub fn outcome(&self, out: &Output) -> (r: Result<(), WgError>)
        ensures
            match r {
                Ok(_) => out.success,
                Err(e) => !out.success && is_exit(e, self@, *out),
            },
    {
        if out.success {
            Ok(())
        } else {
            Err(self.exit_error(out))
        }
    }
}

/// A file for a command to read, and the command.
#[derive(Debug)]
pub struct Staged {
    /// What the file holds.
    pub content: String,
    /// The command that reads it.
    pub cmd: Cmd,
}

// ---------------------------------------------------------------------------
// One interface
// ---------------------------------------------------------------------------
/// `str::to_lowercase`'s result.
pub uninterp spec fn lowercase(s: Seq<char>) -> Seq<char>;

/// `str::to_lowercase`: the result is a function of the text.
#[verifier::external_body]
fn to_lower(s: &str) -> (r: String)
    ensures
        r@ == lowercase(s@),
{
    s.to_lowercase()
}

/// Does the lower-case complaint of `ip addr add` say that the address is
/// there already?
pub open spec fn says_exists(lowered: Seq<char>) -> bool {
    text::holds_text(lowered, "exists"@) || text::holds_text(lowered, "file exists"@)
}

/// Does the lower-case complaint of `ip addr add` say that the address is
/// there already?
pub fn already_there(lowered: &str) -> (r: bool)
    ensures
        r == says_exists(lowered@),
{
    text::contains_text(lowered, "exists") || text::contains_text(lowered, "file exists")
}

/// The command that adds an address to an interface.
pub open spec fn add_address(iface: Seq<char>, cidr: Seq<char>) -> CmdModel {
    command("ip"@, seq!["addr"@, "add"@, cidr, "dev"@, iface])
}

/// The command that takes an address off an interface.
pub open spec fn del_address(iface: Seq<char>, cidr: Seq<char>) -> CmdModel {
    command("ip"@, seq!["addr"@, "del"@, cidr, "dev"@, iface])
}

/// The word after the first `inet`, if there is one.
pub open spec fn inet_of(words: Seq<Seq<char>>) -> Option<Seq<char>>
    decreases words.len(),
{
    if words.len() < 2 {
        None
    } else if words[0] == "inet"@ {
        Some(words[1])
    } else {
        inet_of(words.drop_first())
    }
}

/// The commands that take off every address but `cidr`, one per line that shows
/// another address, in the order of the lines.
pub open spec fn deletions(
    lines: Seq<Seq<char>>,
    iface: Seq<char>,
    cidr: Seq<char>,
) -> Seq<CmdModel>
    decreases lines.len(),
{
    if lines.len() == 0 {
        Seq::empty()
    } else {
        let head = deletions(lines.drop_last(), iface, cidr);
        match inet_of(text::words(lines.last())) {
            Some(a) => if a != cidr {
                head.push(del_address(iface, a))
            } else {
                head
            },
            None => head,
        }
    }
}

/// Every address that is shown and is not the one to stay is taken off, and no
/// other: the one to stay stays.
pub proof fn only_one_stays(
    lines: Seq<Seq<char>>,
    iface: Seq<char>,
    cidr: Seq<char>,
    c: CmdModel,
)
    ensures
        deletions(lines, iface, cidr).contains(c) <==> exists|i: int|
            #![trigger lines[i]]
            0 <= i < lines.len() && (inet_of(text::words(lines[i])) matches Some(a) && a != cidr && c
                == del_address(iface, a)),
    decreases lines.len(),
{
    let all = deletions(lines, iface, cidr);
    if lines.len() > 0 {
        let init = lines.drop_last();
        let head = deletions(init, iface, cidr);
        only_one_stays(init, iface, cidr, c);
        if all.contains(c) {
            let j = all.index_of(c);
            if j < head.len() {
                assert(head[j] == c);
                let i = choose|i: int|
                    #![trigger init[i]]
                    0 <= i < init.len() && (inet_of(text::words(init[i])) matches Some(a) && a
                        != cidr && c == del_address(iface, a));
                assert(lines[i] == init[i]);
            } else {
                assert(lines[lines.len() - 1] == lines.last());
            }
        }
        if exists|i: int|
            #![trigger lines[i]]
            0 <= i < lines.len() && (inet_of(text::words(lines[i])) matches Some(a) && a != cidr
                && c == del_address(iface, a)) {
            let i = choose|i: int|
                #![trigger lines[i]]
                0 <= i < lines.len() && (inet_of(text::words(lines[i])) matches Some(a) && a != cidr
                    && c == del_address(iface, a));
            if i < init.len() {
                assert(init[i] == lines[i]);
                let j = head.index_of(c);
                assert(all[j] == c);
            } else {
                assert(all[head.len() as int] == c);
            }
        }
    }
}

/// The word after the first `inet`, if there is one.
fn find_inet(words: &Vec<String>) -> (r: Option<String>)
    ensures
        text::opt_text(r) == inet_of(text::texts(words@)),
{
    let ghost ws = text::texts(words@);
    let mut i: usize = 0;
    assert(ws.skip(0) =~= ws);
    while i < words.len() && i + 1 < words.len()
        invariant
            i <= words@.len(),
            ws == text::texts(words@),
            inet_of(ws) == inet_of(ws.skip(i as int)),
        decreases words@.len() - i,
    {
        proof {
            assert(ws.skip(i as int)[0] == words@[i as int]@);
            assert(ws.skip(i as int)[1] == words@[i + 1]@);
            assert(ws.skip(i as int).drop_first() =~= ws.skip(i + 1));
        }
        if text::same(words[i].as_str(), "inet") {
            return Some(words[i + 1].clone());
        }
        i = i + 1;
    }
    None
}

/// One WireGuard interface, by name.
#[derive(Debug, Clone)]
pub struct Manager {
    pub iface: String,
}

impl Manager {
    /// The interface with a name.
    pub fn new(iface: &str) -> (r: Self)
        ensures
            r.iface@ == iface@,
    {
        Manager { iface: iface.to_owned() }
    }

    /// The command that succeeds exactly when the interface exists.
    pub fn link_query(&self) -> (r: Cmd)
        ensures
            r@ == command("ip"@, seq!["link"@, "show"@, self.iface@]),
    {
        let r = Cmd::of("ip").arg("link").arg("show").arg(self.iface.as_str());
        assert(r@.args =~= seq!["link"@, "show"@, self.iface@]);
        r
    }

    /// The commands, to be run in order up to the first that fails, that create
    /// the interface if it is absent and bring it up.
    pub fn ensure_link(&self, exists: bool) -> (r: Vec<Cmd>)
        ensures
            cmd_models(r@) == (if exists {
                Seq::empty()
            } else {
                seq![
                    command(
                        "ip"@,
                        seq!["link"@, "add"@, self.iface@, "type"@, "wireguard"@],
                    ),
                ]
            }) + seq![command("ip"@, seq!["link"@, "set"@, self.iface@, "up"@])],
    {
        let mut out: Vec<Cmd> = Vec::new();
        if !exists {
            let c = Cmd::of("ip").arg("link").arg("add").arg(self.iface.as_str()).arg(
                "type",
            ).arg("wireguard");
            assert(c@.args =~= seq!["link"@, "add"@, self.iface@, "type"@, "wireguard"@]);
            out.push(c);
        }
        let c = Cmd::of("ip").arg("link").arg("set").arg(self.iface.as_str()).arg("up");
        assert(c@.args =~= seq!["link"@, "set"@, self.iface@, "up"@]);
        out.push(c);
        out
    }

    /// The command that adds an address.
    pub fn address_command(&self, cidr: &str) -> (r: Cmd)
        ensures
            r@ == add_address(self.iface@, cidr@),
    {
        let r = Cmd::of("ip").arg("addr").arg("add").arg(cidr).arg("dev").arg(
            self.iface.as_str(),
        );
        assert(r@.args =~= seq!["addr"@, "add"@, cidr@, "dev"@, self.iface@]);
        r
    }

    /// Is the address there, given how the command that adds it ended? It is
    /// when the command succeeded, or complained that the address exists.
    pub fn ensure_address(&self, cidr: &str, out: &Output) -> (r: Result<(), WgError>)
        ensures
            match r {
                Ok(_) => out.success || says_exists(lowercase(out.stderr@)),
                Err(e) => !out.success && !says_exists(lowercase(out.stderr@)) && is_exit(
                    e,
                    add_address(self.iface@, cidr@),
                    *out,
                ),
            },
    {
        if out.success {
            return Ok(());
        }
        if already_there(to_lower(out.stderr.as_str()).as_str()) {
            return Ok(());
        }
        Err(self.address_command(cidr).exit_error(out))
    }

    /// The command that shows the IPv4 addresses, one per line.
    pub fn addresses_query(&self) -> (r: Cmd)
        ensures
            r@ == command("ip"@, seq!["-o"@, "-4"@, "addr"@, "show"@, "dev"@, self.iface@]),
    {
        let r = Cmd::of("ip").arg("-o").arg("-4").arg("addr").arg("show").arg("dev").arg(
            self.iface.as_str(),
        );
        assert(r@.args =~= seq!["-o"@, "-4"@, "addr"@, "show"@, "dev"@, self.iface@]);
        r
    }

    /// The commands that leave `cidr` as the only IPv4 address, given the
    /// addresses that are shown: none where they could not be shown.
    pub fn replace_mesh_address(&self, cidr: &str, shown: &Output) -> (r: Vec<Cmd>)
        ensures
            cmd_models(r@) == (if shown.success {
                deletions(text::text_lines(shown.stdout@), self.iface@, cidr@)
            } else {
                Seq::empty()
            }),
    {
        let mut out: Vec<Cmd> = Vec::new();
        assert(cmd_models(out@) =~= Seq::<CmdModel>::empty());
        if !shown.success {
            return out;
        }
        let lines = text::lines(shown.stdout.as_str());
        let ghost ls = text::text_lines(shown.stdout@);
        let mut i: usize = 0;
        while i < lines.len()
            invariant
                i <= lines@.len(),
                ls == text::texts(lines@),
                cmd_models(out@) == deletions(ls.take(i as int), self.iface@, cidr@),
            decreases lines@.len() - i,
        {
            proof {
                assert(ls.take(i + 1).drop_last() =~= ls.take(i as int));
                assert(ls.take(i + 1).last() == lines@[i as int]@);
            }
            let words = text::split_words(lines[i].as_str());
            match find_inet(&words) {
                Some(a) => {
                    if !text::same(a.as_str(), cidr) {
                        let ghost was = out@;
                        let c = Cmd::of("ip").arg("addr").arg("del").arg(a.as_str()).arg(
                            "dev",
                        ).arg(self.iface.as_str());
                        assert(c@.args =~= seq!["addr"@, "del"@, a@, "dev"@, self.iface@]);
                        out.push(c);
                        assert(cmd_models(out@) =~= cmd_models(was).push(
                            del_address(self.iface@, a@),
                        ));
                    }
                },
                None => {},
            }
            i = i + 1;
        }
        assert(ls.take(lines@.len() as int) =~= ls);
        out
    }

    /// The key file and the command that set the private key and the port.
    pub fn configure(&self, priv_key: &[u8; 32], listen_port: u16, key_path: &str) -> (r: Staged)
        ensures
            r.content@ == crate::crypto::b64_text(priv_key@),
            r.cmd@ == command(
                "wg"@,
                seq![
                    "set"@,
                    self.iface@,
                    "listen-port"@,
                    num::decimal(listen_port as nat),
                    "private-key"@,
                    key_path@,
                ],
            ),
    {
        let cmd = Cmd::of("wg").arg("set").arg(self.iface.as_str()).arg("listen-port").arg(
            num::show(listen_port as u64).as_str(),
        ).arg("private-key").arg(key_path);
        assert(cmd@.args =~= seq![
            "set"@,
            self.iface@,
            "listen-port"@,
            num::decimal(listen_port as nat),
            "private-key"@,
            key_path@,
        ]);
        Staged { content: crate::crypto::b64_encode(priv_key), cmd }
    }

    /// The file and the command that replace the whole peer set at once.
    pub fn replace_peers(&self, peers: &Vec<PeerSpec>, conf_path: &str) -> (r: Staged)
        ensures
            r.content@ == syncconf(spec_models(peers@)),
            r.cmd@ == command("wg"@, seq!["syncconf"@, self.iface@, conf_path@]),
    {
        let cmd = Cmd::of("wg").arg("syncconf").arg(self.iface.as_str()).arg(conf_path);
        assert(cmd@.args =~= seq!["syncconf"@, self.iface@, conf_path@]);
        Staged { content: render_syncconf(peers), cmd }
    }

    /// The command that dumps the state of the peers.
    pub fn dump_query(&self) -> (r: Cmd)
        ensures
            r@ == command("wg"@, seq!["show"@, self.iface@, "dump"@]),
    {
        let r = Cmd::of("wg").arg("show").arg(self.iface.as_str()).arg("dump");
        assert(r@.args =~= seq!["show"@, self.iface@, "dump"@]);
        r
    }

    /// The state of the peers, given how the dump ended.
    pub fn handshakes(&self, out: &Output) -> (r: Result<StrMap<PeerInfo>, WgError>)
        ensures
            match r {
                Ok(m) => out.success && m.wf() && info_models(m@) == dump_map(
                    text::text_lines(out.stdout@),
                ),
                Err(e) => !out.success && is_exit(
                    e,
                    command("wg"@, seq!["show"@, self.iface@, "dump"@]),
                    *out,
                ),
            },
    {
        if !out.success {
            return Err(self.dump_query().exit_error(out));
        }
        parse_wg_dump(out.stdout.as_str())
    }

    /// The command that shows the port.
    pub fn port_query(&self) -> (r: Cmd)
        ensures
            r@ == command("wg"@, seq!["show"@, self.iface@, "listen-port"@]),
    {
        let r = Cmd::of("wg").arg("show").arg(self.iface.as_str()).arg("listen-port");
        assert(r@.args =~= seq!["show"@, self.iface@, "listen-port"@]);
        r
    }

    /// The port, given how the command that shows it ended.
    pub fn listen_port(&self, out: &Output) -> (r: Result<u16, WgError>)
        ensures
            match r {
                Ok(n) => out.success && num::unsigned_value(text::trimmed(out.stdout@), 65535)
                    == Ok::<nat, num::IntError>(n as nat),
                Err(e) => if out.success {
                    num::unsigned_value(text::trimmed(out.stdout@), 65535) matches Err(i)
                        && (e matches WgError::InvalidValue(m) && m@ == i.wording())
                } else {
                    is_exit(
                        e,
                        command("wg"@, seq!["show"@, self.iface@, "listen-port"@]),
                        *out,
                    )
                },
            },
    {
        if !out.success {
            return Err(self.port_query().exit_error(out));
        }
        match num::parse_unsigned(text::trim(out.stdout.as_str()).as_str(), 65535) {
            Ok(n) => Ok(n as u16),
            Err(e) => Err(WgError::InvalidValue(e.message())),
        }
    }
}

/// Is this root, given what `id -u` printed, if it ran and printed text?
pub fn is_root(printed: Option<&str>) -> (r: bool)
    ensures
        r == (printed matches Some(s) && text::trimmed(s@) == "0"@),
{
    match printed {
        Some(s) => text::same(text::trim(s).as_str(), "0"),
        None => false,
    }
}

// ---------------------------------------------------------------------------
// Reading a configuration back
// ---------------------------------------------------------------------------
/// What follows `name` on the first of the lines that begins with it.
pub open spec fn field_in(lines: Seq<Seq<char>>, name: Seq<char>) -> Option<Seq<char>>
    decreases lines.len(),
{
    if lines.len() == 0 {
        None
    } else if lines[0].len() >= name.len() && lines[0].take(name.len() as int) == name {
        Some(lines[0].skip(name.len() as int))
    } else {
        field_in(lines.drop_first(), name)
    }
}

/// How many lines stand before the first empty one.
pub open spec fn filled_lines(lines: Seq<Seq<char>>) -> nat
    decreases lines.len(),
{
    if lines.len() == 0 || lines[0].len() == 0 {
        0
    } else {
        1 + filled_lines(lines.drop_first())
    }
}

/// The items of a list that a comma and a blank part.
pub open spec fn list_items(s: Seq<char>) -> Seq<Seq<char>> {
    if s.len() == 0 {
        Seq::empty()
    } else {
        let p = text::pieces(s, text::Sep::Char(','));
        Seq::new(
            p.len(),
            |i: int|
                if i == 0 {
                    p[i]
                } else {
                    p[i].skip(1)
                },
        )
    }
}

/// The peer that the lines of a section describe.
pub open spec fn section_peer(lines: Seq<Seq<char>>) -> SpecModel {
    SpecModel {
        pub_key: field_in(lines, "PublicKey = "@)->0,
        endpoint: field_in(lines, "Endpoint = "@),
        allowed_ips: list_items(field_in(lines, "AllowedIPs = "@)->0),
        keepalive: match field_in(lines, "PersistentKeepalive = "@) {
            Some(s) => match num::unsigned_value(s, 0xffff_ffff) {
                Ok(n) => Some(n as u32),
                Err(_) => None,
            },
            None => None,
        },
    }
}

/// The peers that the lines of a configuration describe: each section begins
/// with `[Peer]` and ends at an empty line.
pub open spec fn read_peers(lines: Seq<Seq<char>>) -> Seq<SpecModel>
    decreases lines.len(),
{
    if lines.len() == 0 || lines[0] != "[Peer]"@ {
        Seq::empty()
    } else {
        let n = filled_lines(lines) as int;
        let p = section_peer(lines.take(n));
        if n + 1 < lines.len() {
            seq![p] + read_peers(lines.skip(n + 1))
        } else {
            seq![p]
        }
    }
}

/// Every field of the peer fits on a line, and no allowed address is empty or
/// holds a comma.
pub open spec fn one_line_fields(p: SpecModel) -> bool {
    &&& !p.pub_key.contains('\n')
    &&& p.endpoint is Some ==> !p.endpoint->0.contains('\n')
    &&& forall|i: int|
        0 <= i < p.allowed_ips.len() ==> {
            let a = #[trigger] p.allowed_ips[i];
            a.len() > 0 && !a.contains('\n') && !a.contains(',')
        }
}

/// A line with a line feed behind it is the first piece of the text.
proof fn line_first(l: Seq<char>, rest: Seq<char>)
    requires
        !l.contains('\n'),
    ensures
        text::pieces(l + "\n"@ + rest, text::Sep::Char('\n')) == seq![l] + text::pieces(
            rest,
            text::Sep::Char('\n'),
        ),
{
    let sep = text::Sep::Char('\n');
    reveal_strlit("\n");
    assert("\n"@ =~= seq!['\n']);
    assert forall|i: int| 0 <= i < l.len() implies !sep.splits(#[trigger] l[i]) by {
        assert(l.contains(l[i]));
    }
    text::pieces_single(l, sep);
    text::pieces_concat(l, '\n', rest, sep);
}

/// A character that neither of two texts holds is not in the two put together.
proof fn neither_holds(a: Seq<char>, b: Seq<char>, c: char)
    requires
        !a.contains(c),
        !b.contains(c),
    ensures
        !(a + b).contains(c),
{
    if (a + b).contains(c) {
        let i = (a + b).index_of(c);
        if i < a.len() {
            assert(a[i] == c);
        } else {
            assert(b[i - a.len()] == c);
        }
    }
}

/// The list of items on one line is read back item by item.
#[verifier::rlimit(40)]
proof fn list_reads_back(items: Seq<Seq<char>>)
    requires
        forall|i: int|
            0 <= i < items.len() ==> {
                let a = #[trigger] items[i];
                a.len() > 0 && !a.contains('\n') && !a.contains(',')
            },
    ensures
        list_items(text::joined(items, ", "@)) == items,
        !text::joined(items, ", "@).contains('\n'),
        items.len() > 0 ==> {
            let p = text::pieces(text::joined(items, ", "@), text::Sep::Char(','));
            &&& text::joined(items, ", "@).len() > 0
            &&& p.len() == items.len()
            &&& p[0] == items[0]
            &&& forall|i: int| 1 <= i < p.len() ==> #[trigger] p[i] == seq![' '] + items[i]
        },
    decreases items.len(),
{
    let sep = text::Sep::Char(',');
    let whole = text::joined(items, ", "@);
    reveal_strlit(", ");
    assert(", "@ =~= seq![',', ' ']);
    if items.len() == 0 {
        assert(list_items(whole) =~= items);
    } else {
        let last = items.last();
        assert(items[items.len() - 1] == last);
        assert(!seq![' '].contains(','));
        neither_holds(seq![' '], last, ',');
        let tail = seq![' '] + last;
        assert forall|i: int| 0 <= i < tail.len() implies !sep.splits(#[trigger] tail[i]) by {
            assert(tail.contains(tail[i]));
        }
        assert forall|i: int| 0 <= i < last.len() implies !sep.splits(#[trigger] last[i]) by {
            assert(last.contains(last[i]));
        }
        text::pieces_single(tail, sep);
        text::pieces_single(last, sep);
        if items.len() > 1 {
            let init = items.drop_last();
            assert forall|i: int| 0 <= i < init.len() implies {
                let a = #[trigger] init[i];
                a.len() > 0 && !a.contains('\n') && !a.contains(',')
            } by {
                assert(init[i] == items[i]);
            }
            list_reads_back(init);
            let head = text::joined(init, ", "@);
            assert(whole =~= head + seq![','] + tail);
            text::pieces_concat(head, ',', tail, sep);
            assert(!seq![',', ' '].contains('\n'));
            neither_holds(head, seq![',', ' '], '\n');
            neither_holds(head + ", "@, last, '\n');
            let p = text::pieces(whole, sep);
            let q = text::pieces(head, sep);
            assert(p == q + seq![tail]);
            assert forall|i: int| 1 <= i < p.len() implies #[trigger] p[i] == seq![' ']
                + items[i] by {
                if i < q.len() {
                    assert(p[i] == q[i]);
                    assert(init[i] == items[i]);
                }
            }
            assert(p[0] == q[0]);
        }
        let p = text::pieces(whole, sep);
        assert forall|i: int| 0 <= i < items.len() implies #[trigger] list_items(whole)[i]
            == items[i] by {
            if i > 0 {
                assert(p[i].skip(1) =~= items[i]);
            }
        }
        assert(list_items(whole) =~= items);
    }
}

/// A line in front decides a field, or is passed over.
proof fn field_cons(l: Seq<char>, rest: Seq<Seq<char>>, name: Seq<char>)
    ensures
        field_in(seq![l] + rest, name) == (if l.len() >= name.len() && l.take(name.len() as int)
            == name {
            Some(l.skip(name.len() as int))
        } else {
            field_in(rest, name)
        }),
{
    assert((seq![l] + rest).drop_first() =~= rest);
}

/// A filled line in front is one more.
proof fn filled_cons(l: Seq<char>, rest: Seq<Seq<char>>)
    requires
        l.len() > 0,
    ensures
        filled_lines(seq![l] + rest) == 1 + filled_lines(rest),
{
    assert((seq![l] + rest).drop_first() =~= rest);
}

/// The lines of the section of a peer.
pub open spec fn section_lines(p: SpecModel) -> Seq<Seq<char>> {
    seq!["[Peer]"@] + (seq!["PublicKey = "@ + p.pub_key] + (seq![
        "AllowedIPs = "@ + text::joined(p.allowed_ips, ", "@),
    ] + (setting_lines("Endpoint = "@, p.endpoint) + setting_lines(
        "PersistentKeepalive = "@,
        match p.keepalive {
            Some(k) => Some(num::decimal(k as nat)),
            None => None,
        },
    ))))
}

/// The line of a setting that may be absent.
pub open spec fn setting_lines(name: Seq<char>, v: Option<Seq<char>>) -> Seq<Seq<char>> {
    match v {
        Some(v) => seq![name + v],
        None => Seq::empty(),
    }
}

/// The names of the settings are parts of a line, and the fixed text of a
/// section is made of them.
#[verifier::rlimit(40)]
proof fn setting_names()
    ensures
        !"[Peer]"@.contains('\n'),
        !"PublicKey = "@.contains('\n'),
        !"AllowedIPs = "@.contains('\n'),
        !"Endpoint = "@.contains('\n'),
        !"PersistentKeepalive = "@.contains('\n'),
        "[Peer]\nPublicKey = "@ == "[Peer]"@ + "\n"@ + "PublicKey = "@,
        "\nAllowedIPs = "@ == "\n"@ + "AllowedIPs = "@,
{
    reveal_strlit("\n");
    reveal_strlit("[Peer]");
    reveal_strlit("PublicKey = ");
    reveal_strlit("AllowedIPs = ");
    reveal_strlit("Endpoint = ");
    reveal_strlit("PersistentKeepalive = ");
    reveal_strlit("[Peer]\nPublicKey = ");
    reveal_strlit("\nAllowedIPs = ");
    assert("[Peer]\nPublicKey = "@ =~= "[Peer]"@ + "\n"@ + "PublicKey = "@);
    assert("\nAllowedIPs = "@ =~= "\n"@ + "AllowedIPs = "@);
}

/// A setting that may be absent is a line of its own, or none.
proof fn setting_first(name: Seq<char>, v: Option<Seq<char>>, rest: Seq<char>)
    requires
        !name.contains('\n'),
        v is Some ==> !v->0.contains('\n'),
    ensures
        text::pieces(
            (match v {
                Some(v) => name + v + "\n"@,
                None => Seq::empty(),
            }) + rest,
            text::Sep::Char('\n'),
        ) == setting_lines(name, v) + text::pieces(rest, text::Sep::Char('\n')),
{
    match v {
        Some(v) => {
            neither_holds(name, v, '\n');
            line_first(name + v, rest);
        },
        None => {
            assert(Seq::<char>::empty() + rest =~= rest);
            let t = text::pieces(rest, text::Sep::Char('\n'));
            assert(Seq::<Seq<char>>::empty() + t =~= t);
        },
    }
}

/// It does not matter which two of three are put together first.
proof fn assoc<T>(a: Seq<T>, b: Seq<T>, c: Seq<T>)
    ensures
        (a + b) + c == a + (b + c),
{
    assert((a + b) + c =~= a + (b + c));
}

/// The text of a section, line by line.
#[verifier::rlimit(40)]
proof fn regrouped(
    head: Seq<char>,
    l1: (Seq<char>, Seq<char>),
    l2: (Seq<char>, Seq<char>),
    nl: Seq<char>,
    el: Seq<char>,
    kl: Seq<char>,
    end: Seq<char>,
)
    ensures
        head + l1.0 + l1.1 + (nl + l2.0) + l2.1 + nl + el + kl + nl + end == head + (l1.0 + l1.1
            + nl + (l2.0 + l2.1 + nl + (el + (kl + (nl + end))))),
{
    let (kn, k) = l1;
    let (an, ips) = l2;
    let t3 = el + (kl + (nl + end));
    let c = head + (kn + k + nl);
    assoc(head, kn, k);
    assoc(head + (kn + k), nl, an);
    assoc(head, kn + k, nl);
    assoc(c, an, ips);
    assoc(c, an + ips, nl);
    let w = c + (an + ips + nl);
    assoc(w + el + kl, nl, end);
    assoc(w + el, kl, nl + end);
    assoc(w, el, kl + (nl + end));
    assoc(c, an + ips + nl, t3);
    assoc(head, kn + k + nl, an + ips + nl + t3);
}

/// The section of a peer holds five lines at most, and an empty one behind them.
#[verifier::rlimit(40)]
proof fn section_pieces(p: SpecModel, rest: Seq<char>)
    requires
        one_line_fields(p),
    ensures
        text::pieces(peer_section(p) + rest, text::Sep::Char('\n')) == section_lines(p) + (seq![
            Seq::<char>::empty(),
        ] + text::pieces(rest, text::Sep::Char('\n'))),
{
    setting_names();
    list_reads_back(p.allowed_ips);
    let nl = "\n"@;
    let none = Seq::<char>::empty();
    let ips = text::joined(p.allowed_ips, ", "@);
    let ka = match p.keepalive {
        Some(k) => Some(num::decimal(k as nat)),
        None => None,
    };
    if p.keepalive is Some {
        let d = ka->0;
        num::decimal_shape(p.keepalive->0 as nat);
        if d.contains('\n') {
            assert(num::is_digit(d[d.index_of('\n')]));
        }
    }
    let l0 = "[Peer]"@;
    let (kn, an) = ("PublicKey = "@, "AllowedIPs = "@);
    let (el, kl) = (endpoint_line(p.endpoint), keepalive_line(p.keepalive));
    neither_holds(kn, p.pub_key, '\n');
    neither_holds(an, ips, '\n');
    line_first(none, rest);
    let t5 = none + nl + rest;
    setting_first("PersistentKeepalive = "@, ka, t5);
    setting_first("Endpoint = "@, p.endpoint, kl + t5);
    let t3 = el + (kl + t5);
    line_first(an + ips, t3);
    line_first(kn + p.pub_key, an + ips + nl + t3);
    line_first(l0, kn + p.pub_key + nl + (an + ips + nl + t3));
    assert(t5 =~= nl + rest);
    regrouped(l0 + nl, (kn, p.pub_key), (an, ips), nl, el, kl, rest);
    let end = seq![none] + text::pieces(rest, text::Sep::Char('\n'));
    let e3 = setting_lines("Endpoint = "@, p.endpoint);
    let e4 = setting_lines("PersistentKeepalive = "@, ka);
    assoc(e3, e4, end);
    assoc(seq![an + ips], e3 + e4, end);
    assoc(seq![kn + p.pub_key], seq![an + ips] + (e3 + e4), end);
    assoc(seq![l0], seq![kn + p.pub_key] + (seq![an + ips] + (e3 + e4)), end);
}

/// The section of a peer is read back as the peer.
#[verifier::rlimit(40)]
proof fn section_reads_back(p: SpecModel, rest: Seq<Seq<char>>)
    requires
        one_line_fields(p),
    ensures
        section_peer(section_lines(p)) == p,
        section_lines(p)[0] == "[Peer]"@,
        filled_lines(section_lines(p) + (seq![Seq::<char>::empty()] + rest)) == section_lines(
            p,
        ).len(),
{
    let ips = text::joined(p.allowed_ips, ", "@);
    list_reads_back(p.allowed_ips);
    reveal_strlit("[Peer]");
    reveal_strlit("PublicKey = ");
    reveal_strlit("AllowedIPs = ");
    reveal_strlit("Endpoint = ");
    reveal_strlit("PersistentKeepalive = ");
    let (kn, en, an, pn) = (
        "PublicKey = "@,
        "Endpoint = "@,
        "AllowedIPs = "@,
        "PersistentKeepalive = "@,
    );
    let l0 = "[Peer]"@;
    let l1 = kn + p.pub_key;
    let l2 = an + ips;
    let ka = match p.keepalive {
        Some(k) => Some(num::decimal(k as nat)),
        None => None,
    };
    let el = setting_lines(en, p.endpoint);
    let kl = setting_lines(pn, ka);
    let s3 = el + kl;
    let s2 = seq![l2] + s3;
    let s1 = seq![l1] + s2;
    let none = Seq::<Seq<char>>::empty();
    assert(l1.take(kn.len() as int) =~= kn && l1.skip(kn.len() as int) =~= p.pub_key);
    assert(l2.take(an.len() as int) =~= an && l2.skip(an.len() as int) =~= ips);
    assert(l0[0] == '[' && l1[0] == 'P' && l1[1] == 'u' && l2[0] == 'A');
    assert(kn[0] == 'P' && kn[1] == 'u' && en[0] == 'E' && an[0] == 'A' && pn[0] == 'P' && pn[1]
        == 'e');
    assert forall|name: Seq<char>, l: Seq<char>|
        #![trigger l.take(name.len() as int)]
        l.len() >= name.len() && l.take(name.len() as int) == name && name.len() >= 2 implies l[0]
        == name[0] && l[1] == name[1] by {
        assert(l.take(name.len() as int)[0] == l[0]);
        assert(l.take(name.len() as int)[1] == l[1]);
    }
    field_cons(l0, s1, kn);
    field_cons(l0, s1, en);
    field_cons(l0, s1, an);
    field_cons(l0, s1, pn);
    field_cons(l1, s2, kn);
    field_cons(l1, s2, en);
    field_cons(l1, s2, an);
    field_cons(l1, s2, pn);
    field_cons(l2, s3, an);
    field_cons(l2, s3, en);
    field_cons(l2, s3, pn);
    assert(field_in(kl, en) is None && (ka is None ==> field_in(kl, pn) is None) && (ka is Some
        ==> field_in(kl, pn) == ka)) by {
        match ka {
            Some(d) => {
                let l = pn + d;
                assert(kl =~= seq![l] + none);
                field_cons(l, none, en);
                field_cons(l, none, pn);
                assert(l[0] == 'P');
                assert(l.take(pn.len() as int) =~= pn && l.skip(pn.len() as int) =~= d);
            },
            None => {},
        }
    }
    assert(field_in(s3, en) == p.endpoint && field_in(s3, pn) == ka) by {
        match p.endpoint {
            Some(e) => {
                let l = en + e;
                field_cons(l, kl, en);
                field_cons(l, kl, pn);
                assert(l[0] == 'E');
                assert(l.take(en.len() as int) =~= en && l.skip(en.len() as int) =~= e);
            },
            None => {
                assert(s3 =~= kl);
            },
        }
    }
    if p.keepalive is Some {
        num::unsigned_roundtrip(p.keepalive->0 as nat, 0xffff_ffff);
    }
    assert(section_peer(section_lines(p)) =~= p);
    let end = seq![Seq::<char>::empty()] + rest;
    assert(filled_lines(end) == 0);
    assert(filled_lines(kl + end) == kl.len()) by {
        match ka {
            Some(d) => {
                filled_cons(pn + d, end);
            },
            None => {
                assert(kl + end =~= end);
            },
        }
    }
    assert(filled_lines(el + (kl + end)) == el.len() + kl.len()) by {
        match p.endpoint {
            Some(e) => {
                filled_cons(en + e, kl + end);
            },
            None => {
                assert(el + (kl + end) =~= kl + end);
            },
        }
    }
    filled_cons(l2, el + (kl + end));
    filled_cons(l1, seq![l2] + (el + (kl + end)));
    filled_cons(l0, seq![l1] + (seq![l2] + (el + (kl + end))));
    assert(section_lines(p) + end =~= seq![l0] + (seq![l1] + (seq![l2] + (el + (kl + end)))));
}

/// The section of the first peer comes first.
proof fn first_section_first(peers: Seq<SpecModel>)
    requires
        peers.len() > 0,
    ensures
        syncconf(peers) == peer_section(peers[0]) + syncconf(peers.drop_first()),
    decreases peers.len(),
{
    let init = peers.drop_last();
    if init.len() > 0 {
        first_section_first(init);
        assert(init[0] == peers[0]);
        assert(init.drop_first() =~= peers.drop_first().drop_last());
        assert(peers.drop_first().last() == peers.last());
        assert(syncconf(peers) =~= peer_section(peers[0]) + syncconf(peers.drop_first()));
    } else {
        assert(syncconf(init) =~= Seq::<char>::empty());
        assert(syncconf(peers.drop_first()) =~= Seq::<char>::empty());
        assert(syncconf(peers) =~= peer_section(peers[0]) + syncconf(peers.drop_first()));
    }
}

/// A configuration is read back, line by line, as exactly the peers that were
/// written, in order: each with its key, its allowed addresses, its endpoint and
/// its keepalive, whichever of them it has.
#[verifier::rlimit(40)]
pub proof fn conf_reads_back(peers: Seq<SpecModel>)
    requires
        forall|i: int| 0 <= i < peers.len() ==> one_line_fields(#[trigger] peers[i]),
    ensures
        read_peers(text::pieces(syncconf(peers), text::Sep::Char('\n'))) == peers,
    decreases peers.len(),
{
    let sep = text::Sep::Char('\n');
    let none = Seq::<char>::empty();
    reveal_strlit("[Peer]");
    if peers.len() == 0 {
        assert(text::pieces(none, sep) == seq![none]);
        assert(none != "[Peer]"@);
        assert(read_peers(seq![none]) =~= peers);
    } else {
        let p = peers[0];
        let tail = peers.drop_first();
        assert forall|i: int| 0 <= i < tail.len() implies one_line_fields(#[trigger] tail[i]) by {
            assert(tail[i] == peers[i + 1]);
        }
        conf_reads_back(tail);
        first_section_first(peers);
        let rest = text::pieces(syncconf(tail), sep);
        section_pieces(p, syncconf(tail));
        section_reads_back(p, rest);
        let sl = section_lines(p);
        let lines = sl + (seq![none] + rest);
        let n = sl.len() as int;
        assert(lines[0] == sl[0]);
        assert(lines.take(n) =~= sl);
        assert(lines.skip(n + 1) =~= rest);
        text::pieces_nonempty(syncconf(tail), sep);
        assert(seq![p] + tail =~= peers);
    }
}

/// Different peer sets have different configurations.
pub proof fn conf_is_faithful(a: Seq<SpecModel>, b: Seq<SpecModel>)
    requires
        forall|i: int| 0 <= i < a.len() ==> one_line_fields(#[trigger] a[i]),
        forall|i: int| 0 <= i < b.len() ==> one_line_fields(#[trigger] b[i]),
        syncconf(a) == syncconf(b),
    ensures
        a == b,
{
    conf_reads_back(a);
    conf_reads_back(b);
}

/// The allowed addresses of a peer are on the third line of its section, and
/// nothing but the addresses decides what that line says.
pub proof fn routes_line(p: SpecModel, rest: Seq<char>)
    requires
        one_line_fields(p),
    ensures
        text::pieces(peer_section(p) + rest, text::Sep::Char('\n')).len() > 3,
        text::pieces(peer_section(p) + rest, text::Sep::Char('\n'))[2] == "AllowedIPs = "@
            + text::joined(p.allowed_ips, ", "@),
{
    section_pieces(p, rest);
}

// ---------------------------------------------------------------------------
// What a dump says
// ---------------------------------------------------------------------------
/// The line is one about the peer with this key: it is not blank, has seven
/// fields or more, and the first of them is the key.
pub open spec fn tells_of(line: Seq<char>, k: Seq<char>) -> bool {
    let f = text::pieces(line, text::Sep::Char('\t'));
    &&& exists|i: int| 0 <= i < line.len() && !text::is_space(#[trigger] line[i])
    &&& f.len() >= 7
    &&& f[0] == k
}

/// What is known of a peer is what the line says: the third field is its
/// endpoint, `(none)` or nothing where it has none; the fifth, sixth and seventh
/// are its last handshake and the bytes received and sent, each 0 where it is no
/// number.
pub open spec fn as_told(e: InfoModel, line: Seq<char>) -> bool {
    let f = text::pieces(line, text::Sep::Char('\t'));
    let shook = num::signed_value(f[4]);
    let rx = num::unsigned_value(f[5], u64::MAX as nat);
    let tx = num::unsigned_value(f[6], u64::MAX as nat);
    &&& e.pub_key == f[0]
    &&& e.endpoint is None <==> f[2] == "(none)"@ || f[2].len() == 0
    &&& e.endpoint is Some ==> e.endpoint->0 == f[2]
    &&& shook is Err ==> e.last_handshake == 0
    &&& shook is Ok ==> e.last_handshake == shook->Ok_0
    &&& rx is Err ==> e.rx == 0
    &&& rx is Ok ==> e.rx == rx->Ok_0
    &&& tx is Err ==> e.tx == 0
    &&& tx is Ok ==> e.tx == tx->Ok_0
}

/// What one line says.
#[verifier::rlimit(40)]
proof fn row_says(line: Seq<char>, k: Seq<char>)
    ensures
        tells_of(line, k) <==> dump_row(line) is Some && dump_row(line)->0.pub_key == k,
        dump_row(line) is Some ==> as_told(dump_row(line)->0, line),
{
    text::trimmed_is_the_middle(line);
    reveal_strlit("");
    let f = text::pieces(line, text::Sep::Char('\t'));
    if dump_row(line) is Some {
        if f[2].len() == 0 {
            assert(f[2] =~= ""@);
        }
    }
}

/// A peer is in what a dump says if and only if some line after the first tells
/// of it, and what is said of it is what the last such line says.
pub proof fn dump_says(lines: Seq<Seq<char>>, k: Seq<char>)
    ensures
        dump_map(lines).contains_key(k) <==> exists|i: int|
            1 <= i < lines.len() && tells_of(#[trigger] lines[i], k),
        forall|i: int|
            #![trigger lines[i]]
            1 <= i < lines.len() && tells_of(lines[i], k) && (forall|j: int|
                i < j < lines.len() ==> !tells_of(#[trigger] lines[j], k)) ==> dump_map(
                lines,
            )[k].pub_key == k && as_told(dump_map(lines)[k], lines[i]),
{
    let at = last_row(lines, k);
    if dump_map(lines).contains_key(k) {
        assert(tells_of(lines[at], k));
        assert forall|i: int|
            #![trigger lines[i]]
            1 <= i < lines.len() && tells_of(lines[i], k) && (forall|j: int|
                i < j < lines.len() ==> !tells_of(#[trigger] lines[j], k)) implies i == at by {}
    }
}

/// Where the last line about a peer stands.
#[verifier::rlimit(40)]
proof fn last_row(lines: Seq<Seq<char>>, k: Seq<char>) -> (at: int)
    ensures
        dump_map(lines).contains_key(k) ==> {
            &&& 1 <= at < lines.len()
            &&& tells_of(lines[at], k)
            &&& dump_map(lines)[k].pub_key == k
            &&& as_told(dump_map(lines)[k], lines[at])
            &&& forall|j: int| at < j < lines.len() ==> !tells_of(#[trigger] lines[j], k)
        },
        !dump_map(lines).contains_key(k) ==> forall|j: int|
            1 <= j < lines.len() ==> !tells_of(#[trigger] lines[j], k),
    decreases lines.len(),
{
    if lines.len() <= 1 {
        0
    } else {
        let init = lines.drop_last();
        let last = lines.last();
        row_says(last, k);
        if tells_of(last, k) {
            lines.len() - 1
        } else {
            let at = last_row(init, k);
            assert forall|j: int| 1 <= j < init.len() implies #[trigger] lines[j] == init[j] by {}
            assert(lines[lines.len() - 1] == last);
            at
        }
    }
}

/// The address that a line shows is the word after its first `inet`.
pub proof fn inet_is_next(words: Seq<Seq<char>>, i: int)
    requires
        0 <= i,
        forall|j: int| 0 <= j < i && j + 1 < words.len() ==> #[trigger] words[j] != "inet"@,
    ensures
        i + 1 < words.len() && words[i] == "inet"@ ==> inet_of(words) == Some(words[i + 1]),
        i + 1 >= words.len() ==> inet_of(words) is None,
    decreases i,
{
    if i > 0 && words.len() >= 2 {
        let t = words.drop_first();
        assert(words[0] != "inet"@);
        assert forall|j: int| 0 <= j < i - 1 && j + 1 < t.len() implies #[trigger] t[j]
            != "inet"@ by {
            assert(t[j] == words[j + 1]);
        }
        inet_is_next(t, i - 1);
    }
}

/// Each line that shows an address other than the one to stay is answered by one
/// `ip addr del` of that address, in the order of the lines, and no other line
/// is.
pub proof fn deletion_per_line(lines: Seq<Seq<char>>, iface: Seq<char>, cidr: Seq<char>)
    ensures
        ({
            let shown = lines.filter(
                |l: Seq<char>| inet_of(text::words(l)) is Some && inet_of(text::words(l))->0 != cidr,
            );
            let r = deletions(lines, iface, cidr);
            &&& r.len() == shown.len()
            &&& forall|i: int|
                0 <= i < r.len() ==> {
                    let c = #[trigger] r[i];
                    &&& c.bin == "ip"@
                    &&& c.args.len() == 5
                    &&& c.args[0] == "addr"@ && c.args[1] == "del"@
                    &&& c.args[2] == inet_of(text::words(shown[i]))->0
                    &&& c.args[3] == "dev"@ && c.args[4] == iface
                }
        }),
    decreases lines.len(),
{
    reveal(Seq::filter);
    if lines.len() > 0 {
        deletion_per_line(lines.drop_last(), iface, cidr);
        let head = deletions(lines.drop_last(), iface, cidr);
        let all = deletions(lines, iface, cidr);
        assert forall|i: int| 0 <= i < head.len() implies #[trigger] all[i] == head[i] by {}
    }
}

/// A program that failed is reported by its name and arguments, each after a
/// blank, its exit code, or -1 where it has none, and what it complained of.
pub proof fn failure_rules(e: WgError, c: CmdModel, out: Output)
    requires
        is_exit(e, c, out),
    ensures
        e matches WgError::Exit { cmd, code, stderr } && {
            &&& out.code is None ==> code == -1
            &&& out.code matches Some(n) ==> code == n
            &&& stderr@ == out.stderr@
            &&& !c.bin.contains(' ') && c.args.len() > 0 && (forall|i: int|
                0 <= i < c.args.len() ==> !(#[trigger] c.args[i]).contains(' ')) ==> text::pieces(
                cmd@,
                text::Sep::Char(' '),
            ) == seq![c.bin] + c.args
        },
{
    let sep = text::Sep::Char(' ');
    reveal_strlit(" ");
    assert(" "@ =~= seq![' ']);
    if !c.bin.contains(' ') && c.args.len() > 0 && (forall|i: int|
        0 <= i < c.args.len() ==> !(#[trigger] c.args[i]).contains(' ')) {
        text::joined_splits(c.args, ' ');
        let b = c.bin;
        assert forall|i: int| 0 <= i < b.len() implies !sep.splits(#[trigger] b[i]) by {
            assert(b.contains(b[i]));
        }
        text::pieces_single(b, sep);
        text::pieces_concat(b, ' ', text::joined(c.args, " "@), sep);
    }
}

/// A complaint says that the address is there if and only if the word `exists`
/// stands in it, wherever that is.
pub proof fn exists_is_the_word(lowered: Seq<char>)
    ensures
        says_exists(lowered) <==> exists|a: Seq<char>, b: Seq<char>|
            lowered == #[trigger] (a + "exists"@ + b),
{
    text::found_means_equal(lowered, "exists"@, 0);
    if text::holds_text(lowered, "file exists"@) {
        let i = choose|i: int| text::stands_at(lowered, "file exists"@, i);
        longer_holds_shorter(lowered, i);
    }
}

/// Where `file exists` stands, `exists` stands five characters on.
proof fn longer_holds_shorter(s: Seq<char>, i: int)
    requires
        text::stands_at(s, "file exists"@, i),
    ensures
        text::stands_at(s, "exists"@, i + 5),
{
    reveal_strlit("exists");
    reveal_strlit("file exists");
    let w = s.subrange(i, i + 11);
    assert(w == "file exists"@);
    assert(s.subrange(i + 5, i + 11) =~= w.subrange(5, 11));
    assert(w.subrange(5, 11) =~= "exists"@);
}

/// An address is added by `ip addr add` and taken off by `ip addr del`, with the
/// address and the interface that are named.
pub proof fn address_commands(iface: Seq<char>, cidr: Seq<char>)
    ensures
        ({
            let a = add_address(iface, cidr);
            let d = del_address(iface, cidr);
            &&& a.bin == "ip"@ && d.bin == "ip"@
            &&& a.args.len() == 5 && d.args.len() == 5
            &&& a.args[0] == "addr"@ && d.args[0] == "addr"@
            &&& a.args[1] == "add"@ && d.args[1] == "del"@
            &&& a.args[2] == cidr && d.args[2] == cidr
            &&& a.args[3] == "dev"@ && d.args[3] == "dev"@
            &&& a.args[4] == iface && d.args[4] == iface
        }),
{
}

} // verus!
