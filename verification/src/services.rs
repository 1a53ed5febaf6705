//! Package-script services: how a script is launched through the user's
//! shell, the output each running service keeps, the table of running
//! services, and the suggestions for which scripts to share.
//!
//! Spawning the pseudo-terminal and reading the manifest file are done by
//! the caller; this module reads the scripts out of the manifest's text,
//! decides the command line and what the table holds.

use vstd::prelude::*;
use serde_json::Value as V;
use crate::keyed::{
    keys_distinct, entries_map, find_key, lemma_entries_map, lemma_entries_update,
    lemma_entries_push, lemma_entries_remove, lemma_map_values_insert, lemma_map_values_remove,
    lemma_remove_insert,
};
use crate::text::{
    chars_of, push_char, push_str, owned, opt_view, clone_opt, starts_with, str_eq, has_prefix,
    strings_view,
};

verus! {

/// How many bytes of output a service keeps.
pub const BUFFER_MAX: usize = 200_000;

// ---------------------------------------------------------------------------
// Shell quoting and the launch command

/// Characters that stand for themselves in a shell word.
pub open spec fn is_plain_shell_char(c: char) -> bool {
    ('a' <= c && c <= 'z') || ('A' <= c && c <= 'Z') || ('0' <= c && c <= '9') || c == '-'
        || c == '_' || c == '.' || c == '/' || c == ':'
}

/// Every character of `s` stands for itself in a shell word.
pub open spec fn all_plain_shell_chars(s: Seq<char>) -> bool {
    forall|i: int| 0 <= i < s.len() ==> is_plain_shell_char(#[trigger] s[i])
}

/// `s` with every single quote written as `'\''`.
pub open spec fn escape_single_quotes(s: Seq<char>) -> Seq<char>
    decreases s.len(),
{
    if s.len() == 0 {
        seq![]
    } else {
        escape_single_quotes(s.drop_last()) + (if s.last() == '\'' {
            seq!['\'', '\\', '\'', '\'']
        } else {
            seq![s.last()]
        })
    }
}

/// `s` as one shell word: unchanged when it is non-empty and plain, otherwise
/// in single quotes with embedded single quotes escaped.
pub open spec fn shell_quoted(s: Seq<char>) -> Seq<char> {
    if s.len() > 0 && all_plain_shell_chars(s) {
        s
    } else {
        seq!['\''] + escape_single_quotes(s) + seq!['\'']
    }
}

fn plain_shell_char(c: char) -> (r: bool)
    ensures
        r == is_plain_shell_char(c),
{
    ('a' <= c && c <= 'z') || ('A' <= c && c <= 'Z') || ('0' <= c && c <= '9') || c == '-'
        || c == '_' || c == '.' || c == '/' || c == ':'
}

/// Shell-quotes a string for safe inclusion inside `sh -c "..."`.
pub fn shell_quote(s: &str) -> (r: String)
    ensures
        r@ == shell_quoted(s@),
{
    let cs = chars_of(s);
    let n = cs.len();
    let mut plain = n > 0;
    let mut i: usize = 0;
    while i < n
        invariant
            n == cs@.len(),
            cs@ == s@,
            i <= n,
            plain == (n > 0 && forall|j: int| 0 <= j < i ==> is_plain_shell_char(#[trigger] cs@[j])),
        decreases n - i,
    {
        if !plain_shell_char(cs[i]) {
            plain = false;
        }
        i += 1;
    }
    if plain {
        return owned(s);
    }
    let mut r = String::new();
    push_char(&mut r, '\'');
    let mut i: usize = 0;
    while i < n
        invariant
            n == cs@.len(),
            cs@ == s@,
            i <= n,
            r@ == seq!['\''] + escape_single_quotes(cs@.take(i as int)),
        decreases n - i,
    {
        let c = cs[i];
        assert(cs@.take(i + 1).drop_last() =~= cs@.take(i as int));
        if c == '\'' {
            push_char(&mut r, '\'');
            push_char(&mut r, '\\');
            push_char(&mut r, '\'');
            push_char(&mut r, '\'');
        } else {
            push_char(&mut r, c);
        }
        assert(r@ =~= seq!['\''] + escape_single_quotes(cs@.take(i + 1)));
        i += 1;
    }
    assert(cs@.take(n as int) =~= s@);
    push_char(&mut r, '\'');
    r
}

/// The package manager that a checkout uses, judged by its lock files.
pub open spec fn package_manager_name(has_pnpm_lock: bool, has_yarn_lock: bool) -> Seq<char> {
    if has_pnpm_lock {
        "pnpm"@
    } else if has_yarn_lock {
        "yarn"@
    } else {
        "npm"@
    }
}

/// Picks the package manager: pnpm if `pnpm-lock.yaml` exists, else yarn if
/// `yarn.lock` exists, else npm.
pub fn detect_package_manager(has_pnpm_lock: bool, has_yarn_lock: bool) -> (r: String)
    ensures
        r@ == package_manager_name(has_pnpm_lock, has_yarn_lock),
{
    if has_pnpm_lock {
        owned("pnpm")
    } else if has_yarn_lock {
        owned("yarn")
    } else {
        owned("npm")
    }
}

/// What is run before the command when the checkout pins a node version.
pub open spec fn nvm_prefix(has_nvmrc: bool) -> Seq<char> {
    if has_nvmrc {
        "command -v nvm >/dev/null 2>&1 && nvm use >/dev/null 2>&1; "@
    } else {
        ""@
    }
}

/// The command handed to `$SHELL -i -l -c`: install dependencies, or run one script.
pub open spec fn service_command_text(
    has_nvmrc: bool,
    package_manager: Seq<char>,
    script_name: Seq<char>,
    is_install: bool,
) -> Seq<char> {
    if is_install {
        nvm_prefix(has_nvmrc) + "exec "@ + shell_quoted(package_manager) + " install"@
    } else {
        nvm_prefix(has_nvmrc) + "exec "@ + shell_quoted(package_manager) + " run "@
            + shell_quoted(script_name)
    }
}

/// Builds the shell command that starts a service (or the dependency install).
pub fn service_command(has_nvmrc: bool, package_manager: &str, script_name: &str, is_install: bool) -> (r: String)
    ensures
        r@ == service_command_text(has_nvmrc, package_manager@, script_name@, is_install),
{
    let mut r = String::new();
    if has_nvmrc {
        push_str(&mut r, "command -v nvm >/dev/null 2>&1 && nvm use >/dev/null 2>&1; ");
    } else {
        push_str(&mut r, "");
    }
    push_str(&mut r, "exec ");
    let pm = shell_quote(package_manager);
    push_str(&mut r, pm.as_str());
    if is_install {
        push_str(&mut r, " install");
    } else {
        push_str(&mut r, " run ");
        let sn = shell_quote(script_name);
        push_str(&mut r, sn.as_str());
    }
    r
}

// ---------------------------------------------------------------------------
// Service output

/// The last `max` bytes of `s` (all of it when it is shorter).
pub open spec fn keep_last_bytes(s: Seq<u8>, max: nat) -> Seq<u8> {
    if s.len() > max {
        s.skip(s.len() - max)
    } else {
        s
    }
}

/// Appends a chunk of output, then drops the oldest bytes so that at most
/// `BUFFER_MAX` remain.
pub fn append_capped(buf: &mut Vec<u8>, chunk: &[u8])
    ensures
        final(buf)@ == keep_last_bytes(old(buf)@ + chunk@, BUFFER_MAX as nat),
{
    let mut i: usize = 0;
    while i < chunk.len()
        invariant
            i <= chunk@.len(),
            buf@ == old(buf)@ + chunk@.take(i as int),
        decreases chunk@.len() - i,
    {
        buf.push(chunk[i]);
        assert(old(buf)@ + chunk@.take(i + 1) =~= (old(buf)@ + chunk@.take(i as int)).push(chunk@[i as int]));
        i += 1;
    }
    assert(chunk@.take(chunk@.len() as int) =~= chunk@);
    let len = buf.len();
    if len > BUFFER_MAX {
        let excess = len - BUFFER_MAX;
        let ghost d = buf@;
        let mut kept: Vec<u8> = Vec::new();
        let mut j: usize = excess;
        while j < len
            invariant
                len == d.len(),
                buf@ == d,
                excess <= j <= len,
                kept@ == d.subrange(excess as int, j as int),
            decreases len - j,
        {
            kept.push(buf[j]);
            assert(d.subrange(excess as int, j + 1) =~= d.subrange(excess as int, j as int).push(d[j as int]));
            j += 1;
        }
        assert(kept@ =~= d.skip(excess as int));
        *buf = kept;
    }
}

/// Law: a service never keeps more than `BUFFER_MAX` bytes, and what it keeps
/// is the newest output: the end of the previous contents followed by the chunk.
pub proof fn law_service_output_capped(old_data: Seq<u8>, chunk: Seq<u8>)
    ensures
        keep_last_bytes(old_data + chunk, BUFFER_MAX as nat).len() <= BUFFER_MAX,
        ({
            let d = old_data + chunk;
            let r = keep_last_bytes(d, BUFFER_MAX as nat);
            r == d.skip(d.len() - r.len())
        }),
        chunk.len() <= BUFFER_MAX ==> ({
            let r = keep_last_bytes(old_data + chunk, BUFFER_MAX as nat);
            r.skip(r.len() - chunk.len()) == chunk
        }),
{
    let d = old_data + chunk;
    let r = keep_last_bytes(d, BUFFER_MAX as nat);
    assert(d.skip(0) =~= d);
    if chunk.len() <= BUFFER_MAX {
        assert(r.skip(r.len() - chunk.len()) =~= chunk);
    }
}

// ---------------------------------------------------------------------------
// The table of running services

/// A script of the package manifest.
pub struct ServiceDef {
    pub name: String,
    pub command: String,
}

/// A member of a JSON object as the manifest is read: a string, an object
/// whose members are each a string or something else, or anything else.
pub enum JsonField {
    Text(String),
    Object(Vec<(String, Option<String>)>),
    Other,
}

/// The plain form of a `JsonField`.
pub enum JsonFieldView {
    Text(Seq<char>),
    Object(Seq<(Seq<char>, Option<Seq<char>>)>),
    Other,
}

/// The plain form of object members whose values are strings or not.
pub open spec fn entries_view(v: Seq<(String, Option<String>)>) -> Seq<(Seq<char>, Option<Seq<char>>)> {
    v.map_values(|e: (String, Option<String>)| (e.0@, opt_view(e.1)))
}

impl View for JsonField {
    type V = JsonFieldView;

    open spec fn view(&self) -> JsonFieldView {
        match self {
            JsonField::Text(t) => JsonFieldView::Text(t@),
            JsonField::Object(v) => JsonFieldView::Object(entries_view(v@)),
            JsonField::Other => JsonFieldView::Other,
        }
    }
}

/// The plain form of a parsed top level: its members, or `None` when it is
/// not an object.
pub open spec fn top_level_view(o: Option<Vec<(String, JsonField)>>) -> Option<Seq<(Seq<char>, JsonFieldView)>> {
    match o {
        Some(v) => Some(v@.map_values(|e: (String, JsonField)| (e.0@, e.1@))),
        None => None,
    }
}

/// What `serde_json::from_str::<serde_json::Value>` makes of a text, read two
/// levels deep: the parser's error message when the text is not JSON; `None`
/// when its top level is not an object; otherwise the members of the top
/// level in the parser's order, each as a `JsonFieldView`.
pub uninterp spec fn json_top_level(text: Seq<char>) -> Result<Option<Seq<(Seq<char>, JsonFieldView)>>, Seq<char>>;

/// `serde_json::from_str::<serde_json::Value>`, with the value converted to
/// plain values two levels deep (see `json_top_level`, which names the result).
#[verifier::external_body]
fn parse_json_top_level(text: &str) -> (r: Result<Option<Vec<(String, JsonField)>>, String>)
    ensures
        match r {
            Ok(o) => json_top_level(text@) == Ok::<Option<Seq<(Seq<char>, JsonFieldView)>>, Seq<char>>(top_level_view(o)),
            Err(m) => json_top_level(text@) == Err::<Option<Seq<(Seq<char>, JsonFieldView)>>, Seq<char>>(m@),
        },
{
    match serde_json::from_str::<V>(text) {
        Ok(V::Object(m)) => Ok(Some(m.into_iter().map(|(k, v)| (k, match v {
            V::String(t) => JsonField::Text(t),
            V::Object(o) => JsonField::Object(o.into_iter().map(|(n, c)| (n, match c { V::String(t) => Some(t), _ => None })).collect()),
            _ => JsonField::Other,
        })).collect())),
        Ok(_) => Ok(None),
        Err(e) => Err(e.to_string()),
    }
}

/// The value of the first member called `name`, if there is one.
pub open spec fn field_named(fields: Seq<(Seq<char>, JsonFieldView)>, name: Seq<char>) -> Option<JsonFieldView>
    decreases fields.len(),
{
    if fields.len() == 0 {
        None
    } else if fields[0].0 == name {
        Some(fields[0].1)
    } else {
        field_named(fields.drop_first(), name)
    }
}

/// The entries of the manifest's `scripts` object; none when the top level
/// is not an object, has no `scripts` member, or that member is not an object.
pub open spec fn manifest_script_entries(top: Option<Seq<(Seq<char>, JsonFieldView)>>) -> Seq<(Seq<char>, Option<Seq<char>>)> {
    match top {
        Some(fields) => match field_named(fields, "scripts"@) {
            Some(JsonFieldView::Object(entries)) => entries,
            _ => Seq::empty(),
        },
        None => Seq::empty(),
    }
}

/// The scripts as the panel lists them: a command that is not a string
/// becomes empty.
pub open spec fn script_defs(entries: Seq<(Seq<char>, Option<Seq<char>>)>) -> Seq<(Seq<char>, Seq<char>)> {
    entries.map_values(|e: (Seq<char>, Option<Seq<char>>)| (e.0, match e.1 { Some(c) => c, None => Seq::<char>::empty() }))
}

/// The plain form of service definitions.
pub open spec fn defs_view(v: Seq<ServiceDef>) -> Seq<(Seq<char>, Seq<char>)> {
    v.map_values(|d: ServiceDef| (d.name@, d.command@))
}

fn find_field(fields: &Vec<(String, JsonField)>, name: &str) -> (r: Option<usize>)
    ensures
        match r {
            Some(i) => i < fields@.len() && field_named(top_level_view(Some(*fields))->0, name@)
                == Some(fields@[i as int].1@),
            None => field_named(top_level_view(Some(*fields))->0, name@) is None,
        },
{
    let ghost t = top_level_view(Some(*fields))->0;
    let mut i: usize = 0;
    assert(t.skip(0) =~= t);
    while i < fields.len()
        invariant
            i <= fields@.len(),
            t == top_level_view(Some(*fields))->0,
            field_named(t, name@) == field_named(t.skip(i as int), name@),
        decreases fields@.len() - i,
    {
        assert(t.skip(i as int)[0] == t[i as int]);
        assert(t.skip(i as int).drop_first() =~= t.skip(i + 1));
        if str_eq(fields[i].0.as_str(), name) {
            return Some(i);
        }
        i += 1;
    }
    assert(t.skip(i as int).len() == 0);
    None
}

fn script_defs_of(entries: &Vec<(String, Option<String>)>) -> (defs: Vec<ServiceDef>)
    ensures
        defs_view(defs@) == script_defs(entries_view(entries@)),
{
    let ghost ev = entries_view(entries@);
    let mut defs: Vec<ServiceDef> = Vec::new();
    let mut i: usize = 0;
    while i < entries.len()
        invariant
            i <= entries@.len(),
            ev == entries_view(entries@),
            defs@.len() == i,
            defs_view(defs@) == script_defs(ev.take(i as int)),
        decreases entries@.len() - i,
    {
        let name = entries[i].0.clone();
        let command = match &entries[i].1 {
            Some(c) => c.clone(),
            None => String::new(),
        };
        let ghost before = defs@;
        defs.push(ServiceDef { name, command });
        proof {
            assert(ev.take(i + 1) =~= ev.take(i as int).push(ev[i as int]));
            assert(defs@ =~= before.push(defs@[i as int]));
            assert(defs_view(defs@) =~= defs_view(before).push((defs@[i as int].name@, defs@[i as int].command@)));
            assert(script_defs(ev.take(i + 1)) =~= script_defs(ev.take(i as int)).push(
                (ev[i as int].0, match ev[i as int].1 { Some(c) => c, None => Seq::<char>::empty() }),
            ));
        }
        i += 1;
    }
    assert(ev.take(entries@.len() as int) =~= ev);
    defs
}

/// The scripts of a package manifest, one per entry of its `scripts` object
/// in the order the parser lists them; a command that is not a string is
/// empty, and a manifest without a `scripts` object has none. A text that is
/// not JSON gives `Failed to parse package.json: <parser error>`.
pub fn manifest_scripts(content: &str) -> (r: Result<Vec<ServiceDef>, String>)
    ensures
        match json_top_level(content@) {
            Ok(top) => r matches Ok(defs) && defs_view(defs@) == script_defs(manifest_script_entries(top)),
            Err(msg) => r matches Err(m) && m@ == "Failed to parse package.json: "@ + msg,
        },
{
    match parse_json_top_level(content) {
        Ok(Some(fields)) => {
            match find_field(&fields, "scripts") {
                Some(i) => match &fields[i].1 {
                    JsonField::Object(entries) => Ok(script_defs_of(entries)),
                    _ => Ok(Vec::new()),
                },
                None => Ok(Vec::new()),
            }
        },
        Ok(None) => Ok(Vec::new()),
        Err(e) => {
            let mut m = String::new();
            push_str(&mut m, "Failed to parse package.json: ");
            push_str(&mut m, e.as_str());
            Err(m)
        },
    }
}

/// A running service as the panel lists it.
pub struct ServiceStatus {
    pub id: String,
    pub script_name: String,
    pub current_branch: Option<String>,
}

/// What the table records for one running service.
pub struct ServiceView {
    pub script_name: Seq<char>,
    pub current_branch: Option<Seq<char>>,
    pub output: Seq<u8>,
}

/// One running service: its script, the branch it was started on (or last
/// switched to), and its recent output.
pub struct ServiceRecord {
    pub script_name: String,
    pub current_branch: Option<String>,
    pub buffer: Vec<u8>,
}

impl View for ServiceRecord {
    type V = ServiceView;

    open spec fn view(&self) -> ServiceView {
        ServiceView {
            script_name: self.script_name@,
            current_branch: opt_view(self.current_branch),
            output: self.buffer@,
        }
    }
}

/// The table after a service started for `script_name` on `branch`.
pub open spec fn services_after_start(
    m: Map<Seq<char>, ServiceView>,
    script_name: Seq<char>,
    branch: Option<Seq<char>>,
) -> Map<Seq<char>, ServiceView> {
    m.insert(script_name, ServiceView { script_name, current_branch: branch, output: Seq::empty() })
}

/// The table after a request to start `script_name` on `branch`: a service
/// that already runs is left as it is; otherwise it is added as started.
pub open spec fn services_after_start_request(
    m: Map<Seq<char>, ServiceView>,
    script_name: Seq<char>,
    branch: Option<Seq<char>>,
) -> Map<Seq<char>, ServiceView> {
    if m.contains_key(script_name) {
        m
    } else {
        services_after_start(m, script_name, branch)
    }
}

/// The table after a service printed `data`. Output for an unknown service changes nothing.
pub open spec fn services_after_output(
    m: Map<Seq<char>, ServiceView>,
    script_name: Seq<char>,
    data: Seq<u8>,
) -> Map<Seq<char>, ServiceView> {
    if m.contains_key(script_name) {
        m.insert(
            script_name,
            ServiceView {
                output: keep_last_bytes(m[script_name].output + data, BUFFER_MAX as nat),
                ..m[script_name]
            },
        )
    } else {
        m
    }
}

/// The table after a checkout: every running service is labelled with `branch`.
pub open spec fn services_after_checkout(
    m: Map<Seq<char>, ServiceView>,
    branch: Seq<char>,
) -> Map<Seq<char>, ServiceView> {
    m.map_values(|v: ServiceView| ServiceView { current_branch: Some(branch), ..v })
}

/// The text of the error for a script that is not running.
pub open spec fn service_not_found_message(script_name: Seq<char>) -> Seq<char> {
    "Service "@ + script_name + " not found"@
}

/// `list` describes the table `m`: one entry per running service, each with
/// its key, script and branch.
pub open spec fn lists_services(list: Seq<ServiceStatus>, m: Map<Seq<char>, ServiceView>) -> bool {
    &&& forall|i: int|
        0 <= i < list.len() ==> {
            &&& m.contains_key(#[trigger] list[i].id@)
            &&& list[i].script_name@ == m[list[i].id@].script_name
            &&& opt_view(list[i].current_branch) == m[list[i].id@].current_branch
        }
    &&& forall|i: int, j: int|
        0 <= i < list.len() && 0 <= j < list.len() && i != j ==> #[trigger] list[i].id@
            != #[trigger] list[j].id@
    &&& forall|k: Seq<char>|
        #[trigger] m.contains_key(k) ==> exists|i: int| 0 <= i < list.len() && #[trigger] list[i].id@ == k
}

/// The running services, keyed by script name. Two tables run side by side
/// (the local front end and the shared back end); `event_prefix` tells their
/// output events apart.
pub struct ServiceManager {
    services: Vec<(String, ServiceRecord)>,
    event_prefix: &'static str,
}

impl View for ServiceManager {
    type V = Map<Seq<char>, ServiceView>;

    closed spec fn view(&self) -> Map<Seq<char>, ServiceView> {
        entries_map(self.services@).map_values(|r: ServiceRecord| r@)
    }
}

impl ServiceManager {
    /// The table's internal consistency: no script occurs twice.
    pub closed spec fn wf(&self) -> bool {
        keys_distinct(self.services@)
    }

    /// The prefix of this table's output events.
    pub closed spec fn spec_event_prefix(&self) -> Seq<char> {
        self.event_prefix@
    }

    /// An empty table whose events are prefixed with `event_prefix`.
    pub fn new(event_prefix: &'static str) -> (r: Self)
        ensures
            r.wf(),
            r@ == Map::<Seq<char>, ServiceView>::empty(),
            r.spec_event_prefix() == event_prefix@,
    {
        let r = ServiceManager { services: Vec::new(), event_prefix };
        assert(r@ =~= Map::<Seq<char>, ServiceView>::empty());
        r
    }

    /// The prefix of this table's output events.
    pub fn event_prefix(&self) -> (r: &'static str)
        ensures
            r@ == self.spec_event_prefix(),
    {
        self.event_prefix
    }

    /// Whether a service for this script is running; starting it again is then a no-op.
    pub fn is_running(&self, script_name: &str) -> (r: bool)
        requires
            self.wf(),
        ensures
            r == self@.contains_key(script_name@),
    {
        proof { lemma_entries_map(self.services@); }
        find_key(&self.services, script_name).is_some()
    }

    /// Records a service that was just spawned for `script_name` on `branch`,
    /// and returns its id (the script name).
    pub fn register_service(&mut self, script_name: &str, branch: Option<&str>) -> (r: String)
        requires
            old(self).wf(),
        ensures
            final(self).wf(),
            r@ == script_name@,
            final(self)@ == services_after_start(
                old(self)@,
                script_name@,
                match branch { Some(b) => Some(b@), None => None },
            ),
            final(self).spec_event_prefix() == old(self).spec_event_prefix(),
    {
        let key = owned(script_name);
        let cb = match branch {
            Some(b) => Some(owned(b)),
            None => None,
        };
        let rec = ServiceRecord { script_name: owned(script_name), current_branch: cb, buffer: Vec::new() };
        match find_key(&self.services, script_name) {
            Some(i) => {
                proof {
                    lemma_entries_update(self.services@, i as int, (key, rec));
                    lemma_map_values_insert(entries_map(self.services@), key@, rec, |r: ServiceRecord| r@);
                    lemma_remove_insert(self.services@, i as int, (key, rec));
                }
                self.services.remove(i);
                self.services.insert(i, (key, rec));
            },
            None => {
                proof {
                    lemma_entries_push(self.services@, (key, rec));
                    lemma_map_values_insert(entries_map(self.services@), key@, rec, |r: ServiceRecord| r@);
                }
                self.services.push((key, rec));
            },
        }
        assert(final(self)@ =~= services_after_start(
            old(self)@,
            script_name@,
            match branch { Some(b) => Some(b@), None => None },
        ));
        owned(script_name)
    }

    /// A request to start `script_name` on `branch`. A service that already
    /// runs is left untouched and `false` says that nothing is to be
    /// spawned; otherwise the service is recorded as started and `true` says
    /// that the caller spawns it (and stops it again should the spawn fail).
    pub fn start_service(&mut self, script_name: &str, branch: Option<&str>) -> (spawn: bool)
        requires
            old(self).wf(),
        ensures
            final(self).wf(),
            spawn == !old(self)@.contains_key(script_name@),
            final(self)@ == services_after_start_request(
                old(self)@,
                script_name@,
                match branch { Some(b) => Some(b@), None => None },
            ),
            final(self).spec_event_prefix() == old(self).spec_event_prefix(),
    {
        if self.is_running(script_name) {
            false
        } else {
            let _ = self.register_service(script_name, branch);
            true
        }
    }

    /// Takes in output that a service printed. Returns whether the service is known.
    pub fn record_output(&mut self, script_name: &str, data: &[u8]) -> (r: bool)
        requires
            old(self).wf(),
        ensures
            final(self).wf(),
            r == old(self)@.contains_key(script_name@),
            final(self)@ == services_after_output(old(self)@, script_name@, data@),
            final(self).spec_event_prefix() == old(self).spec_event_prefix(),
    {
        match find_key(&self.services, script_name) {
            Some(i) => {
                let ghost s0 = self.services@;
                let (key, mut rec) = self.services.remove(i);
                append_capped(&mut rec.buffer, data);
                proof {
                    let e = (key, rec);
                    lemma_remove_insert(s0, i as int, e);
                    lemma_entries_update(s0, i as int, e);
                    lemma_map_values_insert(entries_map(s0), key@, rec, |r: ServiceRecord| r@);
                    lemma_entries_map(s0);
                }
                self.services.insert(i, (key, rec));
                true
            },
            None => false,
        }
    }

    /// The output a service has kept.
    pub fn get_scrollback(&self, script_name: &str) -> (r: Result<Vec<u8>, String>)
        requires
            self.wf(),
        ensures
            match r {
                Ok(data) => self@.contains_key(script_name@) && data@ == self@[script_name@].output,
                Err(msg) => !self@.contains_key(script_name@)
                    && msg@ == service_not_found_message(script_name@),
            },
    {
        match find_key(&self.services, script_name) {
            Some(i) => {
                proof { lemma_entries_map(self.services@); }
                Ok(self.services[i].1.buffer.clone())
            },
            None => {
                let mut msg = String::new();
                push_str(&mut msg, "Service ");
                push_str(&mut msg, script_name);
                push_str(&mut msg, " not found");
                Err(msg)
            },
        }
    }

    /// Forgets a service. Returns whether there was one to forget.
    pub fn stop_service(&mut self, script_name: &str) -> (r: bool)
        requires
            old(self).wf(),
        ensures
            final(self).wf(),
            r == old(self)@.contains_key(script_name@),
            final(self)@ == old(self)@.remove(script_name@),
            final(self).spec_event_prefix() == old(self).spec_event_prefix(),
    {
        match find_key(&self.services, script_name) {
            Some(i) => {
                proof {
                    lemma_entries_remove(self.services@, i as int);
                    lemma_map_values_remove(entries_map(self.services@), script_name@, |r: ServiceRecord| r@);
                    lemma_entries_map(self.services@);
                }
                self.services.remove(i);
                true
            },
            None => {
                assert(old(self)@.remove(script_name@) =~= old(self)@);
                false
            },
        }
    }

    /// Forgets every service and returns the scripts that were running.
    pub fn stop_all(&mut self) -> (r: Vec<String>)
        requires
            old(self).wf(),
        ensures
            final(self).wf(),
            final(self)@ == Map::<Seq<char>, ServiceView>::empty(),
            final(self).spec_event_prefix() == old(self).spec_event_prefix(),
            forall|k: Seq<char>| old(self)@.contains_key(k) <==> exists|i: int| 0 <= i < r@.len() && #[trigger] r@[i]@ == k,
    {
        let mut names: Vec<String> = Vec::new();
        let mut i: usize = 0;
        while i < self.services.len()
            invariant
                i <= self.services@.len(),
                names@.len() == i,
                forall|j: int| 0 <= j < i ==> #[trigger] names@[j]@ == self.services@[j].0@,
            decreases self.services@.len() - i,
        {
            names.push(self.services[i].0.clone());
            i += 1;
        }
        proof {
            lemma_entries_map(self.services@);
            assert forall|k: Seq<char>| old(self)@.contains_key(k) implies exists|i: int| 0 <= i < names@.len() && #[trigger] names@[i]@ == k by {
                let j = choose|j: int| 0 <= j < self.services@.len() && #[trigger] self.services@[j].0@ == k;
                assert(names@[j]@ == k);
            }
            assert forall|k: Seq<char>| (exists|i: int| 0 <= i < names@.len() && #[trigger] names@[i]@ == k) implies old(self)@.contains_key(k) by {
                let j = choose|j: int| 0 <= j < names@.len() && #[trigger] names@[j]@ == k;
                assert(self.services@[j].0@ == k);
            }
        }
        self.services = Vec::new();
        assert(final(self)@ =~= Map::<Seq<char>, ServiceView>::empty());
        names
    }

    /// One status per running service.
    pub fn list_running(&self) -> (r: Vec<ServiceStatus>)
        requires
            self.wf(),
        ensures
            lists_services(r@, self@),
    {
        let mut out: Vec<ServiceStatus> = Vec::new();
        let mut i: usize = 0;
        while i < self.services.len()
            invariant
                i <= self.services@.len(),
                out@.len() == i,
                forall|j: int|
                    0 <= j < i ==> {
                        &&& (#[trigger] out@[j]).id@ == self.services@[j].0@
                        &&& out@[j].script_name@ == self.services@[j].1.script_name@
                        &&& opt_view(out@[j].current_branch) == opt_view(self.services@[j].1.current_branch)
                    },
            decreases self.services@.len() - i,
        {
            let e = &self.services[i];
            out.push(ServiceStatus {
                id: e.0.clone(),
                script_name: e.1.script_name.clone(),
                current_branch: clone_opt(&e.1.current_branch),
            });
            i += 1;
        }
        proof {
            let s = self.services@;
            lemma_entries_map(s);
            assert forall|k: Seq<char>| #[trigger] self@.contains_key(k) implies exists|i: int| 0 <= i < out@.len() && #[trigger] out@[i].id@ == k by {
                let j = choose|j: int| 0 <= j < s.len() && #[trigger] s[j].0@ == k;
                assert(out@[j].id@ == k);
            }
            assert forall|i: int, j: int| 0 <= i < out@.len() && 0 <= j < out@.len() && i != j implies #[trigger] out@[i].id@ != #[trigger] out@[j].id@ by {
                assert(s[i].0@ != s[j].0@);
            }
            assert forall|i: int| 0 <= i < out@.len() implies {
                &&& self@.contains_key(#[trigger] out@[i].id@)
                &&& out@[i].script_name@ == self@[out@[i].id@].script_name
                &&& opt_view(out@[i].current_branch) == self@[out@[i].id@].current_branch
            } by {
                assert(entries_map(s)[s[i].0@] == s[i].1);
            }
        }
        out
    }

    /// Labels every running service with the branch that was just checked out.
    pub fn update_current_branch(&mut self, branch: &str)
        requires
            old(self).wf(),
        ensures
            final(self).wf(),
            final(self)@ == services_after_checkout(old(self)@, branch@),
            final(self).spec_event_prefix() == old(self).spec_event_prefix(),
    {
        let ghost s0 = self.services@;
        let n = self.services.len();
        let mut i: usize = 0;
        while i < n
            invariant
                n == s0.len(),
                self.services@.len() == n,
                i <= n,
                self.event_prefix == old(self).event_prefix,
                forall|j: int| 0 <= j < n ==> (#[trigger] self.services@[j]).0@ == s0[j].0@,
                forall|j: int| 0 <= j < n ==> (#[trigger] self.services@[j]).1.script_name@ == s0[j].1.script_name@,
                forall|j: int| 0 <= j < n ==> (#[trigger] self.services@[j]).1.buffer@ == s0[j].1.buffer@,
                forall|j: int| 0 <= j < i ==> opt_view((#[trigger] self.services@[j]).1.current_branch) == Some(branch@),
                forall|j: int| i <= j < n ==> (#[trigger] self.services@[j]) == s0[j],
            decreases n - i,
        {
            let (key, mut rec) = self.services.remove(i);
            rec.current_branch = Some(owned(branch));
            self.services.insert(i, (key, rec));
            i += 1;
        }
        proof {
            let s1 = self.services@;
            assert(keys_distinct(s1)) by {
                assert forall|a: int, b: int| 0 <= a < s1.len() && 0 <= b < s1.len() && a != b implies #[trigger] s1[a].0@ != #[trigger] s1[b].0@ by {
                    assert(s0[a].0@ != s0[b].0@);
                }
            }
            lemma_entries_map(s0);
            lemma_entries_map(s1);
            let target = services_after_checkout(old(self)@, branch@);
            assert forall|k: Seq<char>| #[trigger] final(self)@.contains_key(k) <==> target.contains_key(k) by {
                if entries_map(s1).contains_key(k) {
                    let j = choose|j: int| 0 <= j < s1.len() && #[trigger] s1[j].0@ == k;
                    assert(s0[j].0@ == k);
                }
                if entries_map(s0).contains_key(k) {
                    let j = choose|j: int| 0 <= j < s0.len() && #[trigger] s0[j].0@ == k;
                    assert(s1[j].0@ == k);
                }
            }
            assert forall|k: Seq<char>| #[trigger] final(self)@.contains_key(k) implies final(self)@[k] == target[k] by {
                let j = choose|j: int| 0 <= j < s1.len() && #[trigger] s1[j].0@ == k;
                assert(s0[j].0@ == k);
                assert(entries_map(s1)[s1[j].0@] == s1[j].1);
                assert(entries_map(s0)[s0[j].0@] == s0[j].1);
            }
            assert(final(self)@ =~= target);
        }
    }
}

// ---------------------------------------------------------------------------
// Reading a checkout's package setup

/// A `node_modules` entry that shows packages were installed: anything but
/// hidden entries such as pnpm's `.pnpm` virtual store.
pub open spec fn is_installed_package_entry(name: Seq<char>) -> bool {
    name.len() > 0 && name != ".pnpm"@ && !has_prefix(name, "."@)
}

/// Whether dependencies count as installed: `node_modules` is a directory
/// holding at least one entry that is not hidden.
pub fn node_modules_installed(is_dir: bool, entry_names: &Vec<String>) -> (r: bool)
    ensures
        r == (is_dir && exists|i: int|
            0 <= i < entry_names@.len() && is_installed_package_entry(#[trigger] entry_names@[i]@)),
{
    if !is_dir {
        return false;
    }
    let mut i: usize = 0;
    while i < entry_names.len()
        invariant
            is_dir,
            i <= entry_names@.len(),
            forall|j: int| 0 <= j < i ==> !is_installed_package_entry(#[trigger] entry_names@[j]@),
        decreases entry_names@.len() - i,
    {
        let name = entry_names[i].as_str();
        if name.unicode_len() > 0 && !str_eq(name, ".pnpm") && !starts_with(name, ".") {
            return true;
        }
        i += 1;
    }
    false
}

/// The shared-services setup of a repository: which script is the front end
/// (run from the local worktree) and which scripts run once for all tasks.
pub struct HerdConfig {
    pub frontend: Option<String>,
    pub shared: Vec<String>,
}

impl HerdConfig {
    /// The setup used when the repository has none: no front end, nothing shared.
    pub fn empty() -> (r: Self)
        ensures
            r.frontend is None,
            r.shared@.len() == 0,
    {
        HerdConfig { frontend: None, shared: Vec::new() }
    }
}

/// The front-end script to suggest: the first of `dev:app`, `dev`, `start`
/// that the manifest has.
pub open spec fn frontend_choice(names: Seq<Seq<char>>) -> Option<Seq<char>> {
    if names.contains("dev:app"@) {
        Some("dev:app"@)
    } else if names.contains("dev"@) {
        Some("dev"@)
    } else if names.contains("start"@) {
        Some("start"@)
    } else {
        None
    }
}

/// Script names that look like long-running back-end services.
pub open spec fn looks_like_shared_service(name: Seq<char>) -> bool {
    has_prefix(name, "dev"@) || has_prefix(name, "serve"@) || has_prefix(name, "api"@)
        || has_prefix(name, "worker"@) || has_prefix(name, "queue"@)
}

/// The scripts to suggest as shared: in manifest order, those that look like
/// services, leaving out the front end.
pub open spec fn shared_choice(names: Seq<Seq<char>>, frontend: Option<Seq<char>>) -> Seq<Seq<char>>
    decreases names.len(),
{
    if names.len() == 0 {
        seq![]
    } else {
        let rest = shared_choice(names.drop_last(), frontend);
        let n = names.last();
        if Some(n) != frontend && looks_like_shared_service(n) {
            rest.push(n)
        } else {
            rest
        }
    }
}

fn contains_name(names: &Vec<String>, name: &str) -> (r: bool)
    ensures
        r == strings_view(names@).contains(name@),
{
    let mut i: usize = 0;
    while i < names.len()
        invariant
            i <= names@.len(),
            forall|j: int| 0 <= j < i ==> #[trigger] names@[j]@ != name@,
        decreases names@.len() - i,
    {
        if str_eq(names[i].as_str(), name) {
            assert(strings_view(names@)[i as int] == name@);
            return true;
        }
        i += 1;
    }
    proof {
        if strings_view(names@).contains(name@) {
            let j = choose|j: int| 0 <= j < strings_view(names@).len() && strings_view(names@)[j] == name@;
            assert(names@[j]@ == name@);
        }
    }
    false
}

/// Suggests a setup from the manifest's script names: the front end as
/// `frontend_choice` picks it, and the service-like others as shared.
pub fn suggest_herd_config(names: &Vec<String>) -> (r: HerdConfig)
    ensures
        opt_view(r.frontend) == frontend_choice(strings_view(names@)),
        strings_view(r.shared@) == shared_choice(strings_view(names@), frontend_choice(strings_view(names@))),
{
    let frontend: Option<String> = if contains_name(names, "dev:app") {
        Some(owned("dev:app"))
    } else if contains_name(names, "dev") {
        Some(owned("dev"))
    } else if contains_name(names, "start") {
        Some(owned("start"))
    } else {
        None
    };
    let ghost fv = frontend_choice(strings_view(names@));
    let mut shared: Vec<String> = Vec::new();
    let mut i: usize = 0;
    while i < names.len()
        invariant
            i <= names@.len(),
            opt_view(frontend) == fv,
            strings_view(shared@) == shared_choice(strings_view(names@).take(i as int), fv),
        decreases names@.len() - i,
    {
        let n = names[i].as_str();
        let is_frontend = match &frontend {
            Some(f) => str_eq(n, f.as_str()),
            None => false,
        };
        let service_like = starts_with(n, "dev") || starts_with(n, "serve") || starts_with(n, "api")
            || starts_with(n, "worker") || starts_with(n, "queue");
        assert(strings_view(names@).take(i + 1).drop_last() =~= strings_view(names@).take(i as int));
        assert(strings_view(names@).take(i + 1).last() == names@[i as int]@);
        if !is_frontend && service_like {
            shared.push(names[i].clone());
            assert(strings_view(shared@) =~= shared_choice(strings_view(names@).take(i as int), fv).push(names@[i as int]@));
        }
        i += 1;
    }
    assert(strings_view(names@).take(names@.len() as int) =~= strings_view(names@));
    HerdConfig { frontend, shared }
}

/// The event on which a service's output is sent to the panel: `<prefix>_<script>`.
pub fn service_output_event(prefix: &str, script_name: &str) -> (r: String)
    ensures
        r@ == prefix@ + "_"@ + script_name@,
{
    let mut s = String::new();
    push_str(&mut s, prefix);
    push_str(&mut s, "_");
    push_str(&mut s, script_name);
    s
}

/// Law: output is added to what the service printed before, never in place
/// of it. While the total fits in `BUFFER_MAX` bytes nothing is lost; beyond
/// that exactly `BUFFER_MAX` bytes are kept, ending with the newest output.
/// Other services and unknown scripts are not touched.
pub proof fn law_output_appends(m: Map<Seq<char>, ServiceView>, script_name: Seq<char>, data: Seq<u8>, other: Seq<char>)
    requires
        m.contains_key(script_name),
    ensures
        ({
            let before = m[script_name].output;
            let after = services_after_output(m, script_name, data)[script_name].output;
            &&& before.len() + data.len() <= BUFFER_MAX ==> after == before + data
            &&& before.len() + data.len() > BUFFER_MAX ==> after.len() == BUFFER_MAX
            &&& data.len() <= BUFFER_MAX ==> after.skip(after.len() - data.len()) == data
            &&& before.len() + data.len() <= BUFFER_MAX ==> after.take(before.len() as int) == before
        }),
        services_after_output(m, script_name, data)[script_name].script_name == m[script_name].script_name,
        services_after_output(m, script_name, data)[script_name].current_branch == m[script_name].current_branch,
        other != script_name ==> services_after_output(m, script_name, data).contains_key(other) == m.contains_key(other),
        other != script_name && m.contains_key(other) ==> services_after_output(m, script_name, data)[other] == m[other],
        !m.contains_key(other) ==> services_after_output(m, other, data) == m,
{
    let before = m[script_name].output;
    let after = services_after_output(m, script_name, data)[script_name].output;
    let all = before + data;
    if all.len() <= BUFFER_MAX {
        assert(after.take(before.len() as int) =~= before);
        assert(after.skip(after.len() - data.len()) =~= data);
    } else {
        assert(after == all.skip(all.len() - BUFFER_MAX));
        if data.len() <= BUFFER_MAX {
            assert(after.skip(after.len() - data.len()) =~= data);
        }
    }
}

/// Law: a started service is there with empty output on its branch, and a
/// stopped one is gone.
pub proof fn law_service_lifecycle(m: Map<Seq<char>, ServiceView>, script_name: Seq<char>, branch: Option<Seq<char>>)
    ensures
        services_after_start(m, script_name, branch).contains_key(script_name),
        services_after_start(m, script_name, branch)[script_name].output.len() == 0,
        services_after_start(m, script_name, branch)[script_name].current_branch == branch,
        !m.remove(script_name).contains_key(script_name),
{
}

/// Law: starting a service that already runs changes nothing, its branch
/// included; starting one that does not run adds exactly that service and
/// leaves every other one as it was.
pub proof fn law_start_is_noop_when_running(
    m: Map<Seq<char>, ServiceView>,
    script_name: Seq<char>,
    branch: Option<Seq<char>>,
    other: Seq<char>,
)
    ensures
        m.contains_key(script_name) ==> services_after_start_request(m, script_name, branch) == m,
        !m.contains_key(script_name) ==> services_after_start_request(m, script_name, branch)
            == m.insert(script_name, ServiceView { script_name, current_branch: branch, output: Seq::empty() }),
        other != script_name ==> (services_after_start_request(m, script_name, branch).contains_key(other)
            == m.contains_key(other)),
        other != script_name && m.contains_key(other) ==> services_after_start_request(m, script_name, branch)[other]
            == m[other],
{
}

/// Law: after a checkout every running service carries the new branch, and
/// the set of running services and their output are unchanged.
pub proof fn law_checkout_relabels_all(m: Map<Seq<char>, ServiceView>, branch: Seq<char>, k: Seq<char>)
    ensures
        services_after_checkout(m, branch).contains_key(k) == m.contains_key(k),
        m.contains_key(k) ==> services_after_checkout(m, branch)[k].current_branch == Some(branch),
        m.contains_key(k) ==> services_after_checkout(m, branch)[k].output == m[k].output,
        m.contains_key(k) ==> services_after_checkout(m, branch)[k].script_name == m[k].script_name,
{
}

/// The text a POSIX shell reads from the word `w`. Outside quotes a single
/// quote opens a quoted part and a backslash takes the next character as it
/// is; inside a quoted part everything up to the next single quote is taken
/// as it is. `quoted` says whether reading starts inside a quoted part.
pub open spec fn shell_word_value(w: Seq<char>, quoted: bool) -> Seq<char>
    decreases w.len(),
{
    if w.len() == 0 {
        seq![]
    } else if quoted {
        if w[0] == '\'' {
            shell_word_value(w.drop_first(), false)
        } else {
            seq![w[0]] + shell_word_value(w.drop_first(), true)
        }
    } else if w[0] == '\'' {
        shell_word_value(w.drop_first(), true)
    } else if w[0] == '\\' && w.len() >= 2 {
        seq![w[1]] + shell_word_value(w.skip(2), false)
    } else {
        seq![w[0]] + shell_word_value(w.drop_first(), false)
    }
}

proof fn lemma_plain_word_value(s: Seq<char>)
    requires
        all_plain_shell_chars(s),
    ensures
        shell_word_value(s, false) == s,
    decreases s.len(),
{
    if s.len() > 0 {
        assert(is_plain_shell_char(s[0]));
        let t = s.drop_first();
        assert forall|i: int| 0 <= i < t.len() implies is_plain_shell_char(#[trigger] t[i]) by {
            assert(t[i] == s[i + 1]);
        }
        lemma_plain_word_value(t);
        assert(seq![s[0]] + t =~= s);
    }
}

proof fn lemma_escaped_piece_value(c: char, rest: Seq<char>)
    ensures
        shell_word_value(
            (if c == '\'' { seq!['\'', '\\', '\'', '\''] } else { seq![c] }) + rest,
            true,
        ) == seq![c] + shell_word_value(rest, true),
{
    if c == '\'' {
        let w = seq!['\'', '\\', '\'', '\''] + rest;
        let w1 = seq!['\\', '\'', '\''] + rest;
        let w2 = seq!['\''] + rest;
        assert(w.drop_first() =~= w1);
        assert(w[0] == '\'');
        assert(w1[0] == '\\' && w1[1] == '\'' && w1.len() >= 2);
        assert(w1.skip(2) =~= w2);
        assert(w2[0] == '\'');
        assert(w2.drop_first() =~= rest);
        assert(shell_word_value(w2, false) == shell_word_value(rest, true));
        assert(shell_word_value(w1, false) == seq!['\''] + shell_word_value(w2, false));
        assert(shell_word_value(w, true) == shell_word_value(w1, false));
    } else {
        let w = seq![c] + rest;
        assert(w.drop_first() =~= rest);
        assert(w[0] == c);
    }
}

proof fn lemma_escaped_value(s: Seq<char>, rest: Seq<char>)
    ensures
        shell_word_value(escape_single_quotes(s) + rest, true) == s + shell_word_value(rest, true),
    decreases s.len(),
{
    if s.len() == 0 {
        assert(escape_single_quotes(s) + rest =~= rest);
        assert(s + shell_word_value(rest, true) =~= shell_word_value(rest, true));
    } else {
        let c = s.last();
        let piece = if c == '\'' { seq!['\'', '\\', '\'', '\''] } else { seq![c] };
        assert(escape_single_quotes(s) + rest =~= escape_single_quotes(s.drop_last()) + (piece + rest));
        lemma_escaped_value(s.drop_last(), piece + rest);
        lemma_escaped_piece_value(c, rest);
        assert(s.drop_last() + (seq![c] + shell_word_value(rest, true)) =~= s + shell_word_value(rest, true));
    }
}

/// Law: the shell reads back exactly the quoted string. `shell_quote` is
/// safe for inclusion in `sh -c`: whatever `s` holds, the word it produces
/// stands for `s` itself.
pub proof fn law_shell_quote_round_trip(s: Seq<char>)
    ensures
        shell_word_value(shell_quoted(s), false) == s,
{
    if s.len() > 0 && all_plain_shell_chars(s) {
        lemma_plain_word_value(s);
    } else {
        let w = seq!['\''] + escape_single_quotes(s) + seq!['\''];
        assert(w.drop_first() =~= escape_single_quotes(s) + seq!['\'']);
        lemma_escaped_value(s, seq!['\'']);
        let q = seq!['\''];
        assert(q.drop_first() =~= Seq::<char>::empty());
        assert(shell_word_value(q, true) == shell_word_value(Seq::<char>::empty(), false));
        assert(s + Seq::<char>::empty() =~= s);
    }
}

} // verus!
