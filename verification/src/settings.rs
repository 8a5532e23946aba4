//! Settings, from the texts of environment variables.

use vstd::prelude::*;
use vstd::utf8::is_ascii_chars;

use crate::duo::{load_duo_config, DuoConfig, DuoConfigView};
use crate::message::{opt_text, ModelConfig, ModelView, WorkerInfo, WorkerView};
use crate::text::{
    ascii_lower, chars_of, decimal, join, joined, lemma_decimal_read_back, lemma_find_char,
    lemma_join_comes_apart, lemma_trimmed_both, lists, lowercase, parse_unsigned, pieces,
    same_text, split, text_of, texts, to_decimal, to_lowercase, trim, trimmed, unsigned,
    white_space,
};

verus! {

/// The value of a variable, or a default where it is not set.
pub open spec fn text_or(var: Option<Seq<char>>, default: Seq<char>) -> Seq<char> {
    match var {
        Some(s) => s,
        None => default,
    }
}

/// The number in a variable, or a default where it is not set or holds no
/// number of at most `max`.
pub open spec fn number_or(var: Option<Seq<char>>, max: int, default: int) -> int {
    match var {
        Some(s) => match unsigned(s, max) {
            Some(n) => n,
            None => default,
        },
        None => default,
    }
}

fn text_or_else(var: Option<String>, default: &str) -> (r: String)
    ensures
        r@ == text_or(opt_text(var), default@),
{
    match var {
        Some(s) => s,
        None => default.to_string(),
    }
}

fn number_or_else(var: &Option<String>, max: u64, default: u64) -> (r: u64)
    requires
        default <= max,
    ensures
        r == number_or(opt_text(*var), max as int, default as int),
        r <= max,
{
    match var {
        Some(s) => {
            let chars = chars_of(s.as_str());
            match parse_unsigned(chars.as_slice(), max) {
                Some(n) => n,
                None => default,
            }
        },
        None => default,
    }
}

// ---------------------------------------------------------------------------
// Administrators
// ---------------------------------------------------------------------------

/// A user's name as it is compared.
pub open spec fn folded(s: Seq<char>) -> Seq<char> {
    lowercase(trimmed(s))
}

/// The users in a list with commas: trimmed, in small letters, empty ones left
/// out.
pub open spec fn users_in(parts: Seq<Seq<char>>) -> Seq<Seq<char>>
    decreases parts.len(),
{
    if parts.len() == 0 {
        seq![]
    } else {
        let front = users_in(parts.drop_last());
        let user = folded(parts.last());
        if user.len() == 0 {
            front
        } else {
            front.push(user)
        }
    }
}

/// The administrators that a variable names; one by default.
pub open spec fn admin_users(var: Option<Seq<char>>) -> Seq<Seq<char>> {
    users_in(pieces(text_or(var, "akinus"@), ','))
}

/// The administrators that a variable names; one by default.
pub fn parse_admin_users(var: Option<String>) -> (r: Vec<String>)
    ensures
        texts(r@) == admin_users(opt_text(var)),
{
    let list = text_or_else(var, "akinus");
    let chars = chars_of(list.as_str());
    let parts = split(chars.as_slice(), ',');
    let ghost wanted = pieces(list@, ',');
    let mut out: Vec<String> = Vec::new();
    assert(wanted.take(0) =~= seq![]);
    assert(texts(out@) =~= users_in(wanted.take(0)));
    for i in 0..parts.len()
        invariant
            lists(parts@) == wanted,
            texts(out@) == users_in(wanted.take(i as int)),
    {
        let ghost before = texts(out@);
        assert(parts@[i as int]@ == wanted[i as int]);
        assert(wanted.take(i + 1).drop_last() =~= wanted.take(i as int));
        let cut = trim(parts[i].as_slice());
        let cut_text = text_of(cut.as_slice());
        let user = to_lowercase(cut_text.as_str());
        assert(user@ == folded(wanted[i as int]));
        if !user.as_str().is_empty() {
            out.push(user);
            assert(texts(out@) =~= before.push(user@));
        }
    }
    assert(wanted.take(parts@.len() as int) =~= wanted);
    out
}

/// Whether a user is an administrator, whatever the case of the name.
pub open spec fn is_admin(admins: Seq<Seq<char>>, username: Seq<char>) -> bool {
    admins.contains(lowercase(username))
}

/// Whether a name stands on a list.
pub fn listed(names: &Vec<String>, name: &str) -> (r: bool)
    ensures
        r == texts(names@).contains(name@),
{
    for i in 0..names.len()
        invariant
            forall|k: int| 0 <= k < i ==> texts(names@)[k] != name@,
    {
        if same_text(names[i].as_str(), name) {
            assert(texts(names@)[i as int] == name@);
            return true;
        }
    }
    false
}

/// Whether a user is an administrator, whatever the case of the name.
pub fn authorized(admins: &Vec<String>, username: &str) -> (r: bool)
    ensures
        r == is_admin(texts(admins@), username@),
{
    let wanted = to_lowercase(username);
    listed(admins, wanted.as_str())
}

/// The users on a list are its pieces, trimmed and in small letters, that are
/// not empty.
pub proof fn lemma_users_in(parts: Seq<Seq<char>>, user: Seq<char>)
    ensures
        users_in(parts).contains(user) <==> user.len() > 0 && exists|i: int|
            0 <= i < parts.len() && folded(#[trigger] parts[i]) == user,
    decreases parts.len(),
{
    if parts.len() > 0 {
        let rest = parts.drop_last();
        let front = users_in(rest);
        let all = users_in(parts);
        let last = folded(parts.last());
        lemma_users_in(rest, user);
        if all.contains(user) {
            let k = choose|k: int| 0 <= k < all.len() && all[k] == user;
            if k < front.len() {
                assert(front[k] == user);
                assert(front.contains(user));
                let i = choose|i: int| 0 <= i < rest.len() && folded(#[trigger] rest[i]) == user;
                assert(folded(parts[i]) == user);
            } else {
                assert(folded(parts[parts.len() - 1]) == user);
            }
        }
        if user.len() > 0 && exists|i: int|
            0 <= i < parts.len() && folded(#[trigger] parts[i]) == user {
            let i = choose|i: int| 0 <= i < parts.len() && folded(#[trigger] parts[i]) == user;
            if i < rest.len() {
                assert(folded(rest[i]) == user);
                assert(front.contains(user));
                let k = choose|k: int| 0 <= k < front.len() && front[k] == user;
                assert(all[k] == user);
            } else {
                assert(all[all.len() - 1] == user);
            }
        }
    }
}

/// Whoever gives no name is no administrator, whatever the variable says.
pub proof fn lemma_nobody_is_no_admin(var: Option<Seq<char>>)
    ensures
        !is_admin(admin_users(var), seq![]),
{
    let nobody: Seq<char> = seq![];
    assert(lowercase(nobody) =~= nobody);
    lemma_users_in(pieces(text_or(var, "akinus"@), ','), lowercase(nobody));
}

/// The case of a name in ASCII makes no difference.
pub proof fn lemma_case_is_ignored(admins: Seq<Seq<char>>, a: Seq<char>, b: Seq<char>)
    requires
        is_ascii_chars(a),
        is_ascii_chars(b),
        a.len() == b.len(),
        forall|i: int| 0 <= i < a.len() ==> ascii_lower(#[trigger] a[i]) == ascii_lower(b[i]),
    ensures
        is_admin(admins, a) == is_admin(admins, b),
{
    assert(lowercase(a) =~= lowercase(b));
}

// ---------------------------------------------------------------------------
// The hub
// ---------------------------------------------------------------------------

/// The environment variables of the hub, each as far as it is set.
pub struct HubEnv {
    pub server_port: Option<String>,
    pub hub_port: Option<String>,
    pub worker_port: Option<String>,
    pub hub_vpn_addr: Option<String>,
    pub hub_http_vpn_addr: Option<String>,
    pub admin_users: Option<String>,
    pub tunnel_certs_dir: Option<String>,
    pub duo_ikey: Option<String>,
    pub duo_skey: Option<String>,
    pub duo_host: Option<String>,
    pub wg_easy_password: Option<String>,
    pub wg_easy_host: Option<String>,
    pub hub_id: Option<String>,
    pub model_name: Option<String>,
    pub model_alias: Option<String>,
    pub model_layers: Option<String>,
    pub hidden_size: Option<String>,
    pub model_url: Option<String>,
    pub model_path: Option<String>,
    pub ctx_size: Option<String>,
    pub queue_url: Option<String>,
    pub worker_key: Option<String>,
}

/// The settings of the hub.
pub struct HubSettings {
    /// Where the HTTP interface listens. `SERVER_PORT` goes before `HUB_PORT`.
    pub hub_port: u16,
    /// Where workers connect.
    pub worker_port: u16,
    /// The address that workers connect to in the tunnel.
    pub hub_vpn_addr: String,
    /// The address of the HTTP interface in the tunnel.
    pub hub_http_vpn_addr: String,
    /// Who may change things.
    pub admin_users: Vec<String>,
    /// Where the tunnel's certificates lie.
    pub tunnel_certs_dir: String,
    /// The Duo account, if there is one.
    pub duo: Option<DuoConfig>,
    /// The password of the tunnel's manager; empty without one.
    pub wg_easy_password: String,
    /// The address of the tunnel's manager.
    pub wg_easy_host: String,
    /// The hub's name.
    pub hub_id: String,
    /// The model.
    pub model: ModelConfig,
    /// The name under which clients are told of the model.
    pub model_alias: String,
    /// Where the model is downloaded from.
    pub model_url: String,
    /// Where the model's file lies.
    pub model_path: String,
    /// How many tokens the model looks at.
    pub ctx_size: usize,
    /// Where workers are discovered.
    pub queue_url: String,
    /// The key without which no workers are discovered.
    pub worker_key: Option<String>,
}

/// The first of two variables where it is set, else the second.
pub open spec fn first_set(a: Option<Seq<char>>, b: Option<Seq<char>>) -> Option<Seq<char>> {
    if a is Some {
        a
    } else {
        b
    }
}

/// The hub's address in the tunnel, at a port.
pub open spec fn tunnel_address(port: int) -> Seq<char> {
    "10.8.0.1:"@ + decimal(port as nat)
}

fn tunnel_address_at(port: u16) -> (r: String)
    ensures
        r@ == tunnel_address(port as int),
{
    let digits = to_decimal(port as u64);
    joined("10.8.0.1:", digits.as_str())
}

/// The settings that the variables give.
pub fn hub_settings(env: HubEnv) -> (r: HubSettings)
    ensures
        r.hub_port == number_or(
            first_set(opt_text(env.server_port), opt_text(env.hub_port)),
            u16::MAX as int,
            8080,
        ),
        r.worker_port == number_or(opt_text(env.worker_port), u16::MAX as int, 50051),
        r.hub_vpn_addr@ == text_or(
            opt_text(env.hub_vpn_addr),
            tunnel_address(r.worker_port as int),
        ),
        r.hub_http_vpn_addr@ == text_or(
            opt_text(env.hub_http_vpn_addr),
            tunnel_address(r.hub_port as int),
        ),
        texts(r.admin_users@) == admin_users(opt_text(env.admin_users)),
        r.tunnel_certs_dir@ == text_or(opt_text(env.tunnel_certs_dir), "/etc/akai-tunnel/certs"@),
        r.duo is Some <==> {
            &&& env.duo_ikey is Some && env.duo_ikey->0@.len() > 0
            &&& env.duo_skey is Some && env.duo_skey->0@.len() > 0
            &&& env.duo_host is Some && env.duo_host->0@.len() > 0
        },
        r.duo matches Some(c) ==> c@ == (DuoConfigView {
            ikey: env.duo_ikey->0@,
            skey: env.duo_skey->0@,
            host: env.duo_host->0@,
        }),
        r.wg_easy_password@ == text_or(opt_text(env.wg_easy_password), seq![]),
        r.wg_easy_host@ == text_or(opt_text(env.wg_easy_host), "wireguard:51821"@),
        r.hub_id@ == text_or(opt_text(env.hub_id), "hub-1"@),
        r.model@ == (ModelView {
            name: text_or(opt_text(env.model_name), "unknown"@),
            num_layers: number_or(
                opt_text(env.model_layers),
                usize::MAX as int,
                32,
            ) as usize,
            hidden_size: number_or(
                opt_text(env.hidden_size),
                usize::MAX as int,
                4096,
            ) as usize,
            num_heads: 32,
            vocab_size: 32000,
        }),
        r.model_alias@ == text_or(opt_text(env.model_alias), "akai-model"@),
        r.model_url@ == text_or(opt_text(env.model_url), seq![]),
        r.model_path@ == text_or(opt_text(env.model_path), "/models/model.gguf"@),
        r.ctx_size == number_or(opt_text(env.ctx_size), usize::MAX as int, 8192),
        r.queue_url@ == text_or(opt_text(env.queue_url), "http://ollama-queue:8000"@),
        opt_text(r.worker_key) == opt_text(env.worker_key),
{
    let port_text = if env.server_port.is_some() {
        &env.server_port
    } else {
        &env.hub_port
    };
    let hub_port: u16 = number_or_else(port_text, u16::MAX as u64, 8080) as u16;
    let worker_port: u16 = number_or_else(&env.worker_port, u16::MAX as u64, 50051) as u16;
    let worker_address = tunnel_address_at(worker_port);
    let http_address = tunnel_address_at(hub_port);
    let empty = String::new();
    HubSettings {
        hub_port,
        worker_port,
        hub_vpn_addr: text_or_else(env.hub_vpn_addr, worker_address.as_str()),
        hub_http_vpn_addr: text_or_else(env.hub_http_vpn_addr, http_address.as_str()),
        admin_users: parse_admin_users(env.admin_users),
        tunnel_certs_dir: text_or_else(env.tunnel_certs_dir, "/etc/akai-tunnel/certs"),
        duo: load_duo_config(env.duo_ikey, env.duo_skey, env.duo_host),
        wg_easy_password: text_or_else(env.wg_easy_password, empty.as_str()),
        wg_easy_host: text_or_else(env.wg_easy_host, "wireguard:51821"),
        hub_id: text_or_else(env.hub_id, "hub-1"),
        model: ModelConfig {
            name: text_or_else(env.model_name, "unknown"),
            num_layers: number_or_else(&env.model_layers, usize::MAX as u64, 32) as usize,
            hidden_size: number_or_else(&env.hidden_size, usize::MAX as u64, 4096) as usize,
            num_heads: 32,
            vocab_size: 32000,
        },
        model_alias: text_or_else(env.model_alias, "akai-model"),
        model_url: text_or_else(env.model_url, empty.as_str()),
        model_path: text_or_else(env.model_path, "/models/model.gguf"),
        ctx_size: number_or_else(&env.ctx_size, usize::MAX as u64, 8192) as usize,
        queue_url: text_or_else(env.queue_url, "http://ollama-queue:8000"),
        worker_key: env.worker_key,
    }
}

// ---------------------------------------------------------------------------
// A worker
// ---------------------------------------------------------------------------

/// The environment variables of a worker, each as far as it is set. The VRAM
/// is the single-precision number that its variable holds, zero where it
/// holds none, as a bit pattern.
pub struct WorkerEnv {
    pub hub_addr: Option<String>,
    pub worker_id: Option<String>,
    pub has_gpu: Option<String>,
    pub vram_gb: u32,
    pub layer_offset: Option<String>,
    pub num_layers: Option<String>,
}

/// The settings of a worker.
pub struct WorkerSettings {
    /// Where the hub is reached.
    pub hub_addr: String,
    /// What the worker tells the hub of itself.
    pub info: WorkerInfo,
}

/// The settings that the variables give.
pub fn worker_settings(env: WorkerEnv) -> (r: WorkerSettings)
    ensures
        r.hub_addr@ == text_or(opt_text(env.hub_addr), "127.0.0.1:50051"@),
        r.info@ == (WorkerView {
            id: text_or(opt_text(env.worker_id), "unknown-worker"@),
            name: seq![],
            layer_offset: number_or(opt_text(env.layer_offset), usize::MAX as int, 0) as usize,
            num_layers: number_or(opt_text(env.num_layers), usize::MAX as int, 32) as usize,
            vram_gb: env.vram_gb,
            has_gpu: text_or(opt_text(env.has_gpu), "false"@) == "true"@,
            load: 0,
            active: false,
            wg_ip: seq![],
            wg_peer_id: seq![],
            models: seq![],
            rpc_port: 0,
        }),
{
    let gpu = text_or_else(env.has_gpu, "false");
    let mut info = WorkerInfo::default();
    info.id = text_or_else(env.worker_id, "unknown-worker");
    info.layer_offset = number_or_else(&env.layer_offset, usize::MAX as u64, 0) as usize;
    info.num_layers = number_or_else(&env.num_layers, usize::MAX as u64, 32) as usize;
    info.vram_gb = env.vram_gb;
    info.has_gpu = same_text(gpu.as_str(), "true");
    WorkerSettings { hub_addr: text_or_else(env.hub_addr, "127.0.0.1:50051"), info }
}

/// A name in ASCII is an administrator's if and only if it is, in small
/// letters and as a whole, a name on the list.
pub proof fn lemma_admin_by_whole_name(admins: Seq<Seq<char>>, username: Seq<char>)
    requires
        is_ascii_chars(username),
    ensures
        is_admin(admins, username) <==> exists|k: int|
            0 <= k < admins.len() && (#[trigger] admins[k]).len() == username.len() && forall|i: int|
                0 <= i < username.len() ==> admins[k][i] == #[trigger] ascii_lower(username[i]),
{
    let small = lowercase(username);
    if is_admin(admins, username) {
        let k = choose|k: int| 0 <= k < admins.len() && admins[k] == small;
        assert(admins[k].len() == username.len());
    }
    if exists|k: int|
        0 <= k < admins.len() && (#[trigger] admins[k]).len() == username.len() && forall|i: int|
            0 <= i < username.len() ==> admins[k][i] == #[trigger] ascii_lower(username[i]) {
        let k = choose|k: int|
            0 <= k < admins.len() && (#[trigger] admins[k]).len() == username.len() && forall|i: int|
                0 <= i < username.len() ==> admins[k][i] == #[trigger] ascii_lower(username[i]);
        assert(admins[k] =~= small);
    }
}

/// A setting that is there counts, whatever it holds; one that is missing has
/// its default. A number is read back as it was written, and one that cannot
/// be read has its default too. Of two settings the first counts where both
/// are there.
pub proof fn lemma_settings_read(
    text: Seq<char>,
    default: Seq<char>,
    n: nat,
    max: int,
    number: int,
    second: Option<Seq<char>>,
)
    requires
        n <= max,
    ensures
        text_or(Some(text), default) == text,
        text_or(None, default) == default,
        number_or(Some(decimal(n)), max, number) == n,
        unsigned(text, max) is None ==> number_or(Some(text), max, number) == number,
        number_or(None, max, number) == number,
        first_set(Some(text), second) == Some(text),
        first_set(None, second) == second,
{
    lemma_decimal_read_back(n, max);
}

/// The administrators are the names between the commas, in small letters and
/// without white space around them, but for empty ones.
pub proof fn lemma_admins_listed(names: Seq<Seq<char>>, user: Seq<char>)
    requires
        names.len() > 0,
        forall|i: int| 0 <= i < names.len() ==> !(#[trigger] names[i]).contains(','),
    ensures
        admin_users(Some(join(names, seq![',']))).contains(user) <==> user.len() > 0 && exists|
            i: int,
        |
            0 <= i < names.len() && lowercase(trimmed(#[trigger] names[i])) == user,
{
    lemma_join_comes_apart(names, ',');
    lemma_users_in(names, user);
    if user.len() > 0 && exists|i: int|
        0 <= i < names.len() && lowercase(trimmed(#[trigger] names[i])) == user {
        let i = choose|i: int|
            0 <= i < names.len() && lowercase(trimmed(#[trigger] names[i])) == user;
        assert(folded(names[i]) == user);
    }
}

/// Where no administrators are set there is one.
pub proof fn lemma_default_admin(user: Seq<char>)
    ensures
        admin_users(None).contains(user) <==> user == "akinus"@,
{
    let name = "akinus"@;
    let nothing: Seq<char> = seq![];
    reveal_strlit("akinus");
    assert(name.len() == 6);
    assert(name[0] == 'a' && name[1] == 'k' && name[2] == 'i' && name[3] == 'n' && name[4] == 'u'
        && name[5] == 's');
    lemma_find_char(name, ',', 6);
    assert(pieces(name, ',') =~= seq![name]);
    assert(nothing + name + nothing =~= name);
    assert(!white_space('a') && !white_space('s'));
    lemma_trimmed_both(nothing, name, nothing);
    assert(is_ascii_chars(name));
    assert(lowercase(name) =~= name);
    lemma_users_in(seq![name], user);
    assert(folded(seq![name][0]) == name);
}

} // verus!
