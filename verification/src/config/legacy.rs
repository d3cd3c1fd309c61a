//! The `server.properties` file of older servers: `key=value` lines.

use vstd::prelude::*;
use vstd::string::StrSliceExecFns;

use crate::world::{Difficulty, Gamemode};
use super::text::{
    chars_of, find_char, is_unsigned_within, next_char, parse_unsigned, parses_unsigned, trim, trim_bounds,
    unsigned_value, lemma_next_char_bounds,
};

verus! {

/// Every setting of a `server.properties` file; the server reads
/// `max-players`, `server-ip` and `server-port` and leaves the others at
/// their defaults.
pub struct LegacyConfig {
    pub accepts_transfers: bool,
    pub allow_flight: bool,
    pub broadcast_console_ops: bool,
    pub broadcast_rcon_ops: bool,
    pub bug_report_link: String,
    pub difficulty: Difficulty,
    pub enable_coc: bool,
    pub enable_jmx_monitor: bool,
    pub enable_query: bool,
    pub enable_rcon: bool,
    pub enable_status: bool,
    pub enforce_secure_profile: bool,
    pub enforce_whitelist: bool,
    pub entity_broadcast_range: u8,
    pub force_gamemode: bool,
    pub function_permission_level: u8,
    pub gamemode: Gamemode,
    pub generate_structures: bool,
    pub hardcore: bool,
    pub hide_online_players: bool,
    pub level_name: String,
    pub level_seed: String,
    pub level_type: String,
    pub log_ips: bool,
    pub management_server_enabled: bool,
    pub management_server_host: String,
    pub management_server_port: u16,
    pub management_server_secret: String,
    pub management_server_tls_enabled: bool,
    pub max_chained_neighbor_updates: u32,
    pub max_players: u32,
    pub max_tick_time: u32,
    pub max_world_size: u32,
    pub motd: String,
    pub network_compression_threshold: u16,
    pub online_mode: bool,
    pub op_permission_level: u8,
    pub pause_empty_seeconds: u16,
    pub player_idle_timeout: u16,
    pub prevent_proxy_connections: bool,
    pub query_port: u16,
    pub rate_limit: u16,
    pub rcon_password: String,
    pub rcon_port: u16,
    pub region_file_compression: String,
    pub require_resource_pack: bool,
    pub server_ip: String,
    pub server_port: u16,
    pub simulation_distance: u8,
    pub spawn_protection: u8,
    pub status_heartbeat_interval: u8,
    pub sync_chunk_writes: bool,
    pub view_distance: u8,
    pub whitelist: bool,
}

impl LegacyConfig {
    /// Every setting that the file does not set holds its default: false,
    /// zero, empty, easy difficulty, survival mode.
    pub open spec fn unread_settings_default(&self) -> bool {
        &&& !self.accepts_transfers
        &&& !self.allow_flight
        &&& !self.broadcast_console_ops
        &&& !self.broadcast_rcon_ops
        &&& self.bug_report_link@ == Seq::<char>::empty()
        &&& self.difficulty == Difficulty::Easy
        &&& !self.enable_coc
        &&& !self.enable_jmx_monitor
        &&& !self.enable_query
        &&& !self.enable_rcon
        &&& !self.enable_status
        &&& !self.enforce_secure_profile
        &&& !self.enforce_whitelist
        &&& self.entity_broadcast_range == 0
        &&& !self.force_gamemode
        &&& self.function_permission_level == 0
        &&& self.gamemode == Gamemode::Survival
        &&& !self.generate_structures
        &&& !self.hardcore
        &&& !self.hide_online_players
        &&& self.level_name@ == Seq::<char>::empty()
        &&& self.level_seed@ == Seq::<char>::empty()
        &&& self.level_type@ == Seq::<char>::empty()
        &&& !self.log_ips
        &&& !self.management_server_enabled
        &&& self.management_server_host@ == Seq::<char>::empty()
        &&& self.management_server_port == 0
        &&& self.management_server_secret@ == Seq::<char>::empty()
        &&& !self.management_server_tls_enabled
        &&& self.max_chained_neighbor_updates == 0
        &&& self.max_tick_time == 0
        &&& self.max_world_size == 0
        &&& self.motd@ == Seq::<char>::empty()
        &&& self.network_compression_threshold == 0
        &&& !self.online_mode
        &&& self.op_permission_level == 0
        &&& self.pause_empty_seeconds == 0
        &&& self.player_idle_timeout == 0
        &&& !self.prevent_proxy_connections
        &&& self.query_port == 0
        &&& self.rate_limit == 0
        &&& self.rcon_password@ == Seq::<char>::empty()
        &&& self.rcon_port == 0
        &&& self.region_file_compression@ == Seq::<char>::empty()
        &&& !self.require_resource_pack
        &&& self.simulation_distance == 0
        &&& self.spawn_protection == 0
        &&& self.status_heartbeat_interval == 0
        &&& !self.sync_chunk_writes
        &&& self.view_distance == 0
        &&& !self.whitelist
    }

    /// Every setting holds its default.
    pub open spec fn is_default(&self) -> bool {
        &&& self.unread_settings_default()
        &&& self.max_players == 0
        &&& self.server_ip@ == Seq::<char>::empty()
        &&& self.server_port == 0
    }
}

impl Default for LegacyConfig {
    fn default() -> (config: Self)
        ensures
            config.is_default(),
    {
        LegacyConfig {
            accepts_transfers: false,
            allow_flight: false,
            broadcast_console_ops: false,
            broadcast_rcon_ops: false,
            bug_report_link: String::new(),
            difficulty: Difficulty::Easy,
            enable_coc: false,
            enable_jmx_monitor: false,
            enable_query: false,
            enable_rcon: false,
            enable_status: false,
            enforce_secure_profile: false,
            enforce_whitelist: false,
            entity_broadcast_range: 0,
            force_gamemode: false,
            function_permission_level: 0,
            gamemode: Gamemode::Survival,
            generate_structures: false,
            hardcore: false,
            hide_online_players: false,
            level_name: String::new(),
            level_seed: String::new(),
            level_type: String::new(),
            log_ips: false,
            management_server_enabled: false,
            management_server_host: String::new(),
            management_server_port: 0,
            management_server_secret: String::new(),
            management_server_tls_enabled: false,
            max_chained_neighbor_updates: 0,
            max_players: 0,
            max_tick_time: 0,
            max_world_size: 0,
            motd: String::new(),
            network_compression_threshold: 0,
            online_mode: false,
            op_permission_level: 0,
            pause_empty_seeconds: 0,
            player_idle_timeout: 0,
            prevent_proxy_connections: false,
            query_port: 0,
            rate_limit: 0,
            rcon_password: String::new(),
            rcon_port: 0,
            region_file_compression: String::new(),
            require_resource_pack: false,
            server_ip: String::new(),
            server_port: 0,
            simulation_distance: 0,
            spawn_protection: 0,
            status_heartbeat_interval: 0,
            sync_chunk_writes: false,
            view_distance: 0,
            whitelist: false,
        }
    }
}

/// What the server reads of the file.
pub struct LegacySettings {
    pub max_players: u32,
    pub server_ip: Seq<char>,
    pub server_port: u16,
}

impl LegacyConfig {
    pub open spec fn settings(&self) -> LegacySettings {
        LegacySettings { max_players: self.max_players, server_ip: self.server_ip@, server_port: self.server_port }
    }
}

/// The settings before any line is read: no players, no address, port 0.
pub open spec fn default_settings() -> LegacySettings {
    LegacySettings { max_players: 0, server_ip: Seq::empty(), server_port: 0 }
}

/// A comment line: one that starts with `#` (before any trimming).
pub open spec fn is_comment(line: Seq<char>) -> bool {
    line.len() > 0 && line[0] == '#'
}

/// Where the first field of `t` ends: its first `=`, or its end.
pub open spec fn key_end(t: Seq<char>) -> int {
    next_char(t, 0, '=')
}

/// The first field of `t` split at each `=`.
pub open spec fn field_key(t: Seq<char>) -> Seq<char> {
    t.subrange(0, key_end(t))
}

/// Where the second field of `t` ends: its second `=`, or its end.
pub open spec fn value_end(t: Seq<char>) -> int {
    next_char(t, key_end(t) + 1, '=')
}

/// Splitting `t` at each `=`, and dropping a trailing empty field, leaves a
/// second field: `t` holds an `=` that is not its last character, or two.
pub open spec fn has_value(t: Seq<char>) -> bool {
    &&& key_end(t) < t.len()
    &&& (value_end(t) < t.len() || value_end(t) > key_end(t) + 1)
}

/// The second field of `t` split at each `=`.
pub open spec fn field_value(t: Seq<char>) -> Seq<char> {
    t.subrange(key_end(t) + 1, value_end(t))
}

/// The server can read `line`: it is a comment, or its trimmed text is not
/// empty and, for the keys that the server reads, has a value, and a
/// number where the key calls for one (no greater than the largest `u32`
/// for `max-players`, `u16` for `server-port`).
pub open spec fn line_accepted(line: Seq<char>) -> bool {
    ||| is_comment(line)
    ||| {
        let t = trim(line);
        &&& t.len() > 0
        &&& field_key(t) == "max-players"@ ==> has_value(t) && parses_unsigned(field_value(t), 0xffff_ffff)
        &&& field_key(t) == "server-ip"@ ==> has_value(t)
        &&& field_key(t) == "server-port"@ ==> has_value(t) && parses_unsigned(field_value(t), 0xffff)
    }
}

/// The settings after reading `line`: `max-players`, `server-ip` and
/// `server-port` set their setting to the value; comments and other keys
/// change nothing.
pub open spec fn apply_line(acc: LegacySettings, line: Seq<char>) -> LegacySettings {
    if is_comment(line) {
        acc
    } else {
        let t = trim(line);
        let key = field_key(t);
        if key == "max-players"@ {
            LegacySettings { max_players: unsigned_value(field_value(t)) as u32, ..acc }
        } else if key == "server-ip"@ {
            LegacySettings { server_ip: field_value(t), ..acc }
        } else if key == "server-port"@ {
            LegacySettings { server_port: unsigned_value(field_value(t)) as u16, ..acc }
        } else {
            acc
        }
    }
}

/// Where the line that starts at `i` ends: the next line feed, or the end.
pub open spec fn line_end(s: Seq<char>, i: int) -> int {
    next_char(s, i, '\n')
}

/// The line of `s` that starts at `i`, as `str::lines` gives it: up to the
/// next line feed, without it, and without a carriage return before it.
pub open spec fn line_at(s: Seq<char>, i: int) -> Seq<char> {
    let e = line_end(s, i);
    let raw = s.subrange(i, e);
    if e < s.len() && raw.len() > 0 && raw.last() == '\r' {
        raw.drop_last()
    } else {
        raw
    }
}

/// The settings after reading, on top of `acc`, the lines of `s` from the
/// one that starts at `i`.
pub open spec fn settings_from(s: Seq<char>, i: int, acc: LegacySettings) -> LegacySettings
    decreases s.len() + 1 - i
    via settings_from_decreases
{
    if 0 <= i < s.len() {
        settings_from(s, line_end(s, i) + 1, apply_line(acc, line_at(s, i)))
    } else {
        acc
    }
}

/// The server can read every line of `s` from the one that starts at `i`.
pub open spec fn accepted_from(s: Seq<char>, i: int) -> bool
    decreases s.len() + 1 - i
    via accepted_from_decreases
{
    if 0 <= i < s.len() {
        line_accepted(line_at(s, i)) && accepted_from(s, line_end(s, i) + 1)
    } else {
        true
    }
}

#[via_fn]
proof fn settings_from_decreases(s: Seq<char>, i: int, acc: LegacySettings) {
    if 0 <= i < s.len() {
        lemma_next_char_bounds(s, i, '\n');
    }
}

#[via_fn]
proof fn accepted_from_decreases(s: Seq<char>, i: int) {
    if 0 <= i < s.len() {
        lemma_next_char_bounds(s, i, '\n');
    }
}

/// The settings that the text of a `server.properties` file gives.
pub open spec fn legacy_settings(s: Seq<char>) -> LegacySettings {
    settings_from(s, 0, default_settings())
}

/// The server can read every line of the text of a `server.properties`
/// file.
pub open spec fn legacy_text_accepted(s: Seq<char>) -> bool {
    accepted_from(s, 0)
}

/// A line whose key the server does not read is accepted whatever follows
/// its first `=`, an empty value among others: the key is the trimmed text
/// up to position `k`, where `k` is the first `=` or the end.
pub proof fn lemma_unread_keys_accepted(line: Seq<char>, k: int)
    requires
        !is_comment(line),
        trim(line).len() > 0,
        0 <= k <= trim(line).len(),
        forall|j: int| 0 <= j < k ==> trim(line)[j] != '=',
        k == trim(line).len() || trim(line)[k] == '=',
        trim(line).take(k) != "max-players"@,
        trim(line).take(k) != "server-ip"@,
        trim(line).take(k) != "server-port"@,
    ensures
        line_accepted(line),
{
    let t = trim(line);
    lemma_next_char_bounds(t, 0, '=');
    let e = next_char(t, 0, '=');
    if e < k {
        assert(t[e] != '=');
    }
    if k < e {
        assert(t[k] != '=');
    }
    assert(e == k);
    assert(field_key(t) =~= t.take(k));
}

/// A comment line changes no setting.
pub proof fn lemma_comments_change_nothing(acc: LegacySettings, line: Seq<char>)
    requires
        is_comment(line),
    ensures
        apply_line(acc, line) == acc,
{
}

/// A line whose key the server does not read changes no setting.
pub proof fn lemma_unread_keys_change_nothing(acc: LegacySettings, line: Seq<char>)
    requires
        !is_comment(line),
        field_key(trim(line)) != "max-players"@,
        field_key(trim(line)) != "server-ip"@,
        field_key(trim(line)) != "server-port"@,
    ensures
        apply_line(acc, line) == acc,
{
}

/// Of two lines that set the same setting, the later one wins: reading
/// both gives what reading the later one alone gives.
pub proof fn lemma_later_line_wins(acc: LegacySettings, first: Seq<char>, second: Seq<char>)
    requires
        !is_comment(first),
        !is_comment(second),
        field_key(trim(first)) == field_key(trim(second)),
    ensures
        apply_line(apply_line(acc, first), second) == apply_line(acc, second),
{
}

/// A line sets only the setting of its own key: the others keep what they
/// held.
pub proof fn lemma_line_sets_own_key_only(acc: LegacySettings, line: Seq<char>)
    ensures
        field_key(trim(line)) != "max-players"@ || is_comment(line) ==> apply_line(acc, line).max_players
            == acc.max_players,
        field_key(trim(line)) != "server-ip"@ || is_comment(line) ==> apply_line(acc, line).server_ip
            == acc.server_ip,
        field_key(trim(line)) != "server-port"@ || is_comment(line) ==> apply_line(acc, line).server_port
            == acc.server_port,
{
}

/// Every line of `s` from the one that starts at `i` is a comment.
pub open spec fn only_comments_from(s: Seq<char>, i: int) -> bool
    decreases s.len() + 1 - i
    via only_comments_from_decreases
{
    if 0 <= i < s.len() {
        is_comment(line_at(s, i)) && only_comments_from(s, line_end(s, i) + 1)
    } else {
        true
    }
}

#[via_fn]
proof fn only_comments_from_decreases(s: Seq<char>, i: int) {
    if 0 <= i < s.len() {
        lemma_next_char_bounds(s, i, '\n');
    }
}

/// Lines that are all comments leave every setting as it was; a file of
/// comments alone gives the default settings.
pub proof fn lemma_comment_lines_keep_settings(s: Seq<char>, i: int, acc: LegacySettings)
    requires
        only_comments_from(s, i),
    ensures
        settings_from(s, i, acc) == acc,
    decreases s.len() + 1 - i,
{
    if 0 <= i < s.len() {
        lemma_next_char_bounds(s, i, '\n');
        lemma_comment_lines_keep_settings(s, line_end(s, i) + 1, acc);
    }
}

/// A copy of `s[from..to]`.
fn copy_range(s: &Vec<char>, from: usize, to: usize) -> (v: Vec<char>)
    requires
        from <= to <= s.len(),
    ensures
        v@ == s@.subrange(from as int, to as int),
{
    let mut v: Vec<char> = Vec::new();
    let mut i = from;
    while i < to
        invariant
            from <= i <= to <= s.len(),
            v@ == s@.subrange(from as int, i as int),
        decreases to - i,
    {
        v.push(s[i]);
        i = i + 1;
        assert(v@ =~= s@.subrange(from as int, i as int));
    }
    v
}

/// Whether `s[from..to]` is `word`.
fn range_is(s: &Vec<char>, from: usize, to: usize, word: &str) -> (b: bool)
    requires
        from <= to <= s.len(),
    ensures
        b == (s@.subrange(from as int, to as int) == word@),
{
    let n = word.unicode_len();
    if to - from != n {
        return false;
    }
    let mut i: usize = 0;
    while i < n
        invariant
            i <= n == to - from,
            from <= to <= s.len(),
            n == word@.len(),
            forall|j: int| 0 <= j < i ==> s@[from + j] == word@[j],
        decreases n - i,
    {
        if s[from + i] != word.get_char(i) {
            assert(s@.subrange(from as int, to as int)[i as int] != word@[i as int]);
            return false;
        }
        i = i + 1;
    }
    assert(s@.subrange(from as int, to as int) =~= word@);
    true
}

/// Whether the server can read the line `chars[start..end]`.
fn line_is_accepted(chars: &Vec<char>, start: usize, end: usize) -> (b: bool)
    requires
        start <= end <= chars.len(),
    ensures
        b == line_accepted(chars@.subrange(start as int, end as int)),
{
    let ghost line_view = chars@.subrange(start as int, end as int);
    if end > start && chars[start] == '#' {
        return true;
    }
    let line = copy_range(chars, start, end);
    let (a, b) = trim_bounds(&line);
    let t = copy_range(&line, a, b);
    let ghost tv = trim(line_view);
    assert(t@ == tv);
    if t.len() == 0 {
        return false;
    }
    let k = find_char(&t, 0, '=');
    proof {
        lemma_next_char_bounds(tv, 0, '=');
    }
    proof {
        reveal_strlit("max-players");
        reveal_strlit("server-ip");
        reveal_strlit("server-port");
    }
    assert("max-players"@ != "server-ip"@ && "server-ip"@ != "server-port"@) by {
        assert("max-players"@.len() != "server-ip"@.len());
        assert("server-port"@.len() != "server-ip"@.len());
    }
    assert("max-players"@ != "server-port"@) by {
        assert("max-players"@[0] != "server-port"@[0]);
    }
    let max_players = range_is(&t, 0, k, "max-players");
    let server_ip = range_is(&t, 0, k, "server-ip");
    let server_port = range_is(&t, 0, k, "server-port");
    if !max_players && !server_ip && !server_port {
        return true;
    }
    if k >= t.len() {
        return false;
    }
    let e = find_char(&t, k + 1, '=');
    proof {
        lemma_next_char_bounds(tv, k + 1, '=');
    }
    if !(e < t.len() || e > k + 1) {
        return false;
    }
    if max_players {
        is_unsigned_within(&t, k + 1, e, 0xffff_ffff)
    } else if server_port {
        is_unsigned_within(&t, k + 1, e, 0xffff)
    } else {
        true
    }
}

/// Whether the server can read every line of the text of a
/// `server.properties` file; where it cannot, reading the file stops the
/// server.
pub fn legacy_text_is_accepted(text: &str) -> (b: bool)
    ensures
        b == legacy_text_accepted(text@),
{
    let chars = chars_of(text);
    let ghost s = chars@;
    let mut i: usize = 0;
    while i < chars.len()
        invariant
            i <= chars.len(),
            s == chars@,
            chars@ == text@,
            legacy_text_accepted(s) == accepted_from(s, i as int),
        decreases chars.len() - i,
    {
        let e = find_char(&chars, i, '\n');
        proof {
            lemma_next_char_bounds(s, i as int, '\n');
        }
        let end = if e < chars.len() && e > i && chars[e - 1] == '\r' {
            e - 1
        } else {
            e
        };
        assert(chars@.subrange(i as int, end as int) == line_at(s, i as int));
        if !line_is_accepted(&chars, i, end) {
            return false;
        }
        assert(accepted_from(s, chars.len() as int) == accepted_from(s, chars.len() + 1));
        i = if e < chars.len() {
            e + 1
        } else {
            chars.len()
        };
    }
    true
}

/// Reads one line, `chars[start..end]` of the file's text, into `config`.
fn read_line(config: &mut LegacyConfig, text: &str, chars: &Vec<char>, start: usize, end: usize)
    requires
        start <= end <= chars.len(),
        chars@ == text@,
        line_accepted(chars@.subrange(start as int, end as int)),
    ensures
        final(config).settings() == apply_line(old(config).settings(), chars@.subrange(start as int, end as int)),
        old(config).unread_settings_default() ==> final(config).unread_settings_default(),
{
    let ghost line_view = chars@.subrange(start as int, end as int);
    if end > start && chars[start] == '#' {
        return;
    }
    let line = copy_range(chars, start, end);
    let (a, b) = trim_bounds(&line);
    let t = copy_range(&line, a, b);
    let ghost tv = trim(line_view);
    assert(t@ == tv);
    let k = find_char(&t, 0, '=');
    proof {
        lemma_next_char_bounds(tv, 0, '=');
    }
    if range_is(&t, 0, k, "max-players") {
        let e = find_char(&t, k + 1, '=');
        proof {
            lemma_next_char_bounds(tv, k + 1, '=');
        }
        config.max_players = parse_unsigned(&t, k + 1, e, 0xffff_ffff);
    } else if range_is(&t, 0, k, "server-ip") {
        let e = find_char(&t, k + 1, '=');
        proof {
            lemma_next_char_bounds(tv, k + 1, '=');
            assert(text@.subrange((start + a + k + 1) as int, (start + a + e) as int) =~= field_value(tv));
        }
        config.server_ip = text.substring_char(start + a + k + 1, start + a + e).to_owned();
    } else if range_is(&t, 0, k, "server-port") {
        let e = find_char(&t, k + 1, '=');
        proof {
            lemma_next_char_bounds(tv, k + 1, '=');
        }
        config.server_port = parse_unsigned(&t, k + 1, e, 0xffff) as u16;
    }
}

/// Reads the text of a `server.properties` file: line by line, skipping
/// comments, setting `max-players`, `server-ip` and `server-port` from
/// their `key=value` lines (the last line of a key wins) and leaving every
/// other setting at its default.
pub fn get_legacy_config(legacy_config: String) -> (config: LegacyConfig)
    requires
        legacy_text_accepted(legacy_config@),
    ensures
        config.settings() == legacy_settings(legacy_config@),
        config.unread_settings_default(),
{
    let mut config = LegacyConfig::default();
    let text = legacy_config.as_str();
    let chars = chars_of(text);
    let ghost s = chars@;
    let mut i: usize = 0;
    while i < chars.len()
        invariant
            i <= chars.len(),
            s == chars@,
            chars@ == text@,
            text@ == legacy_config@,
            legacy_settings(s) == settings_from(s, i as int, config.settings()),
            accepted_from(s, i as int),
            config.unread_settings_default(),
        decreases chars.len() - i,
    {
        let e = find_char(&chars, i, '\n');
        proof {
            lemma_next_char_bounds(s, i as int, '\n');
        }
        let end = if e < chars.len() && e > i && chars[e - 1] == '\r' {
            e - 1
        } else {
            e
        };
        assert(chars@.subrange(i as int, end as int) == line_at(s, i as int));
        let ghost before = config.settings();
        read_line(&mut config, text, &chars, i, end);
        assert(settings_from(s, i as int, before) == settings_from(s, e + 1, config.settings()));
        assert(settings_from(s, chars.len() as int, config.settings()) == settings_from(s, chars.len() + 1, config.settings()));
        i = if e < chars.len() {
            e + 1
        } else {
            chars.len()
        };
    }
    config
}

} // verus!
