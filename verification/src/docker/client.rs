//! Finding the daemon, and reading what it says.
//!
//! Two runtimes are supported, Docker and Podman, but only ever one at a time. Podman
//! offers an API compatible with Docker's, so all that depends on the runtime is where
//! to look, what to call the other end, and what to suggest when something is wrong.
use vstd::prelude::*;
use vstd::utf8::{
    decode_utf8, encode_utf8, encode_utf8_decode_utf8, encode_utf8_valid_utf8, is_ascii_chars,
    is_ascii_chars_encode_utf8, valid_utf8,
};

use crate::docker::types::{
    containers_view, inspect_detail, stats_sample, summary_container, Container,
    ContainerDetail, ContainerInspectResponse, ContainerStatsResponse, ContainerSummary,
    ContainerView, Stats,
};
use crate::order::{
    first_difference_decides, is_stable_sort, lemma_filter_map_holds, lemma_insert_keeps_stable_sort, lemma_stable_sort_exists,
    lemma_stable_sort_permutes, lemma_stable_sort_unique, lemma_text_leq_total,
    lemma_text_leq_transitive, in_order, stable_sorted, text_in_order, text_leq, total_preorder,
};
use crate::text::{
    chars_of, contains_text, find_text, first_char, first_occurrence, from_utf8, join,
    joined, lemma_first_char, occurs_at, same_text, show_bytes, shown, text_contains, text_view, texts,
    lemma_trimmed, only_outer_white_space_goes, plain_characters_are_not_white_space,
    text_holds_what_was_put_in, trim_range, trimmed, white_space,
};

verus! {

// ---------------------------------------------------------------------------
// Runtimes and preferences.
// ---------------------------------------------------------------------------
/// Which container runtime answered.
///
/// The daemon says so itself; the socket's path proves nothing, because Podman can
/// stand behind Docker's path.
#[derive(Debug, Clone, Copy, PartialEq, Eq, Structural)]
pub enum Runtime {
    Docker,
    Podman,
}

/// The name of a runtime.
pub open spec fn runtime_label(runtime: Runtime) -> Seq<char> {
    match runtime {
        Runtime::Docker => "Docker"@,
        Runtime::Podman => "Podman"@,
    }
}

impl Runtime {
    /// The name to show a person.
    pub fn label(self) -> (r: &'static str)
        ensures
            r@ == runtime_label(self),
    {
        match self {
            Runtime::Docker => "Docker",
            Runtime::Podman => "Podman",
        }
    }
}

/// Which runtime the user wants. `Auto` takes the first one that is found.
#[derive(Debug, Clone, Copy, PartialEq, Eq, Structural)]
pub enum RuntimePreference {
    Auto,
    Docker,
    Podman,
}

impl Default for RuntimePreference {
    fn default() -> (r: RuntimePreference)
        ensures
            r == RuntimePreference::Auto,
    {
        RuntimePreference::Auto
    }
}

/// The stored form of a preference.
pub open spec fn preference_key(pref: RuntimePreference) -> Seq<char> {
    match pref {
        RuntimePreference::Auto => "auto"@,
        RuntimePreference::Docker => "docker"@,
        RuntimePreference::Podman => "podman"@,
    }
}

/// The preference that a stored form stands for: `Auto` for anything unknown.
pub open spec fn preference_named(key: Seq<char>) -> RuntimePreference {
    if key == "docker"@ {
        RuntimePreference::Docker
    } else if key == "podman"@ {
        RuntimePreference::Podman
    } else {
        RuntimePreference::Auto
    }
}

/// The name of a preference in the menu.
pub open spec fn preference_label(pref: RuntimePreference) -> Seq<char> {
    match pref {
        RuntimePreference::Auto => "Automatic"@,
        RuntimePreference::Docker => "Docker"@,
        RuntimePreference::Podman => "Podman"@,
    }
}

/// Whether a preference considers a runtime at all.
pub open spec fn admitted(pref: RuntimePreference, runtime: Runtime) -> bool {
    match pref {
        RuntimePreference::Auto => true,
        RuntimePreference::Docker => runtime == Runtime::Docker,
        RuntimePreference::Podman => runtime == Runtime::Podman,
    }
}

impl RuntimePreference {
    /// The stable string that is stored, and that the menu action carries.
    pub fn as_key(self) -> (r: &'static str)
        ensures
            r@ == preference_key(self),
    {
        match self {
            RuntimePreference::Auto => "auto",
            RuntimePreference::Docker => "docker",
            RuntimePreference::Podman => "podman",
        }
    }

    /// Reads the stored form. Anything unknown is `Auto`: a hand-edited file must not
    /// be able to wedge the app.
    pub fn from_key(key: &str) -> (r: RuntimePreference)
        ensures
            r == preference_named(key@),
    {
        if same_text(key, "docker") {
            RuntimePreference::Docker
        } else if same_text(key, "podman") {
            RuntimePreference::Podman
        } else {
            RuntimePreference::Auto
        }
    }

    /// The menu label.
    pub fn label(self) -> (r: &'static str)
        ensures
            r@ == preference_label(self),
    {
        match self {
            RuntimePreference::Auto => "Automatic",
            RuntimePreference::Docker => "Docker",
            RuntimePreference::Podman => "Podman",
        }
    }

    /// Whether this preference considers `runtime` at all.
    pub fn admits(self, runtime: Runtime) -> (r: bool)
        ensures
            r == admitted(self, runtime),
    {
        match self {
            RuntimePreference::Auto => true,
            RuntimePreference::Docker => runtime == Runtime::Docker,
            RuntimePreference::Podman => runtime == Runtime::Podman,
        }
    }
}

/// A preference survives being stored and read again, and what is not the stored form
/// of any preference reads as `Auto`.
pub proof fn preference_keys_read_back(pref: RuntimePreference, key: Seq<char>)
    ensures
        preference_named(preference_key(pref)) == pref,
        (forall|p: RuntimePreference| key != #[trigger] preference_key(p)) ==> preference_named(key)
            == RuntimePreference::Auto,
{
    reveal_strlit("auto");
    reveal_strlit("docker");
    reveal_strlit("podman");
    assert("auto"@.len() != "docker"@.len());
    assert("auto"@.len() != "podman"@.len());
    assert("docker"@[0] != "podman"@[0]);
    assert(preference_key(RuntimePreference::Docker) == "docker"@);
    assert(preference_key(RuntimePreference::Podman) == "podman"@);
}

/// An explicit preference admits its own runtime and no other; `Auto` admits both.
pub proof fn explicit_preference_admits_one_runtime(runtime: Runtime)
    ensures
        admitted(RuntimePreference::Auto, runtime),
        admitted(RuntimePreference::Docker, runtime) != admitted(RuntimePreference::Podman, runtime),
        admitted(RuntimePreference::Docker, runtime) <==> runtime == Runtime::Docker,
{
}

/// What is on the other end of a live connection.
#[derive(Debug, Clone, PartialEq, Eq)]
pub struct Connection {
    pub runtime: Runtime,
    /// As the daemon reports it, e.g. "6.0.1".
    pub version: String,
}

impl Connection {
    /// The runtime and its version, e.g. "Podman 6.0.1".
    pub fn describe(&self) -> (r: String)
        ensures
            r@ == runtime_label(self.runtime) + " "@ + self.version@,
    {
        let mut out = self.runtime.label().to_owned();
        out.append(" ");
        out.append(self.version.as_str());
        out
    }
}

/// How long to wait for an answer over a socket, in seconds.
pub const SOCKET_TIMEOUT_SECS: u64 = 120;

/// How many lines of its logs a container is asked for, before those to come.
pub const LOG_TAIL: &'static str = "200";

// ---------------------------------------------------------------------------
// Sockets.
// ---------------------------------------------------------------------------
pub const DOCKER_ROOTFUL_SOCKET: &'static str = "/var/run/docker.sock";

pub const PODMAN_ROOTFUL_SOCKET: &'static str = "/run/podman/podman.sock";

/// A socket that is looked for.
///
/// `runtime` is only a guess from the path: good enough for a suggestion, not for a
/// label.
#[derive(Debug, PartialEq, Eq)]
pub struct Candidate {
    /// The path, as the bytes that the system knows it by.
    pub path: Vec<u8>,
    pub runtime: Runtime,
    /// A rootless socket belongs to the user, a rootful one to the system.
    pub rootless: bool,
}

/// What a `Candidate` holds.
#[verifier::ext_equal]
pub struct CandidateView {
    pub path: Seq<u8>,
    pub runtime: Runtime,
    pub rootless: bool,
}

impl View for Candidate {
    type V = CandidateView;

    open spec fn view(&self) -> CandidateView {
        CandidateView { path: self.path@, runtime: self.runtime, rootless: self.rootless }
    }
}

impl Clone for Candidate {
    fn clone(&self) -> (r: Candidate)
        ensures
            r@ == self@,
    {
        let path = self.path.clone();
        proof {
            assert(path@ =~= self.path@);
        }
        Candidate { path, runtime: self.runtime, rootless: self.rootless }
    }
}

impl Candidate {
    /// The path as text, to show a person.
    pub fn display(&self) -> (r: String)
        ensures
            r@ == shown(self.path@),
    {
        show_bytes(&self.path)
    }
}

/// What a sequence of candidates holds.
pub open spec fn candidates_view(s: Seq<Candidate>) -> Seq<CandidateView> {
    Seq::new(s.len(), |i: int| s[i]@)
}

/// The path of `leaf`, a relative path, under `dir`: a slash goes between them unless
/// `dir` is empty or ends in one.
pub open spec fn path_under(dir: Seq<u8>, leaf: Seq<u8>) -> Seq<u8> {
    if dir.len() == 0 || dir.last() == 47 {
        dir + leaf
    } else {
        dir.push(47) + leaf
    }
}

/// The path of `leaf` under `dir`.
fn join_path(dir: &Vec<u8>, leaf: &str) -> (r: Vec<u8>)
    ensures
        r@ == path_under(dir@, encode_utf8(leaf@)),
{
    let mut out = dir.clone();
    proof {
        assert(out@ =~= dir@);
    }
    if out.len() > 0 && out[out.len() - 1] != 47 {
        out.push(47);
    }
    let mut tail = leaf.as_bytes_vec();
    out.append(&mut tail);
    out
}

/// The socket candidates, in the order in which they are tried: first all of Docker's,
/// then all of Podman's; for each, the user's own in `dir`, then the system's.
pub open spec fn candidate_list(dir: Option<Seq<u8>>) -> Seq<CandidateView> {
    let docker = CandidateView {
        path: encode_utf8(DOCKER_ROOTFUL_SOCKET@),
        runtime: Runtime::Docker,
        rootless: false,
    };
    let podman = CandidateView {
        path: encode_utf8(PODMAN_ROOTFUL_SOCKET@),
        runtime: Runtime::Podman,
        rootless: false,
    };
    match dir {
        Some(dir) => seq![
            CandidateView {
                path: path_under(dir, encode_utf8("docker.sock"@)),
                runtime: Runtime::Docker,
                rootless: true,
            },
            docker,
            CandidateView {
                path: path_under(
                    path_under(dir, encode_utf8("podman"@)),
                    encode_utf8("podman.sock"@),
                ),
                runtime: Runtime::Podman,
                rootless: true,
            },
            podman,
        ],
        None => seq![docker, podman],
    }
}

/// The bytes of an optional byte string.
pub open spec fn bytes_view(bytes: Option<Vec<u8>>) -> Option<Seq<u8>> {
    match bytes {
        Some(bytes) => Some(bytes@),
        None => None,
    }
}

/// Every socket that is looked for, in priority order; `runtime_dir` is the user's
/// runtime directory, if there is one.
///
/// By runtime, Docker first, and not by scope: on a machine with the system's Docker
/// and the user's own Podman, an order by scope would find Podman's socket first and
/// silently switch runtimes.
pub fn candidates_in(runtime_dir: Option<Vec<u8>>) -> (r: Vec<Candidate>)
    ensures
        candidates_view(r@) == candidate_list(bytes_view(runtime_dir)),
{
    let mut candidates: Vec<Candidate> = Vec::new();
    match &runtime_dir {
        Some(dir) => {
            candidates.push(
                Candidate {
                    path: join_path(dir, "docker.sock"),
                    runtime: Runtime::Docker,
                    rootless: true,
                },
            );
        },
        None => {},
    }
    candidates.push(
        Candidate {
            path: DOCKER_ROOTFUL_SOCKET.as_bytes_vec(),
            runtime: Runtime::Docker,
            rootless: false,
        },
    );
    match &runtime_dir {
        Some(dir) => {
            candidates.push(
                Candidate {
                    path: join_path(&join_path(dir, "podman"), "podman.sock"),
                    runtime: Runtime::Podman,
                    rootless: true,
                },
            );
        },
        None => {},
    }
    candidates.push(
        Candidate {
            path: PODMAN_ROOTFUL_SOCKET.as_bytes_vec(),
            runtime: Runtime::Podman,
            rootless: false,
        },
    );
    proof {
        assert(candidates_view(candidates@) =~= candidate_list(bytes_view(runtime_dir)));
    }
    candidates
}

/// Whatever the user's runtime directory, no candidate of Podman's comes before one of
/// Docker's; and without such a directory only the system's sockets remain.
pub proof fn candidates_put_docker_first(dir: Option<Seq<u8>>)
    ensures
        forall|i: int, j: int|
            0 <= i < candidate_list(dir).len() && 0 <= j < candidate_list(dir).len()
                && #[trigger] candidate_list(dir)[i].runtime == Runtime::Docker
                && #[trigger] candidate_list(dir)[j].runtime == Runtime::Podman ==> i < j,
        dir is None ==> candidate_list(dir).len() == 2,
        dir is None ==> (forall|i: int|
            0 <= i < candidate_list(dir).len() ==> !#[trigger] candidate_list(dir)[i].rootless),
{
}

/// The value of `DOCKER_HOST`, if it is set to something.
pub open spec fn set_host(value: Option<Seq<char>>) -> Option<Seq<char>> {
    match value {
        Some(host) => if host.len() == 0 {
            None
        } else {
            Some(host)
        },
        None => None,
    }
}

/// `DOCKER_HOST`, if it is set to something non-empty; `value` is what the environment
/// holds.
pub fn docker_host(value: Option<String>) -> (r: Option<String>)
    ensures
        text_view(r) == set_host(text_view(value)),
{
    match value {
        Some(host) => if host.as_str().is_empty() {
            None
        } else {
            Some(host)
        },
        None => None,
    }
}

/// Whether the candidate at `i` was seen to exist.
pub open spec fn seen(present: Seq<bool>, i: int) -> bool {
    0 <= i < present.len() && present[i]
}

/// The runtimes that a machine could offer: Docker where `host_set`, then that of each
/// candidate that exists, each once.
pub open spec fn offered_runtimes(
    host_set: bool,
    candidates: Seq<CandidateView>,
    present: Seq<bool>,
) -> Seq<Runtime>
    decreases candidates.len(),
{
    if candidates.len() == 0 {
        if host_set {
            seq![Runtime::Docker]
        } else {
            Seq::empty()
        }
    } else {
        let before = offered_runtimes(host_set, candidates.drop_last(), present);
        let runtime = candidates.last().runtime;
        if seen(present, candidates.len() - 1) && !before.contains(runtime) {
            before.push(runtime)
        } else {
            before
        }
    }
}

fn holds_runtime(runtimes: &Vec<Runtime>, runtime: Runtime) -> (r: bool)
    ensures
        r == runtimes@.contains(runtime),
{
    let mut i: usize = 0;
    while i < runtimes.len()
        invariant
            i <= runtimes@.len(),
            forall|k: int| 0 <= k < i ==> #[trigger] runtimes@[k] != runtime,
        decreases runtimes@.len() - i,
    {
        if runtimes[i] == runtime {
            return true;
        }
        i += 1;
    }
    false
}

fn is_present(present: &Vec<bool>, i: usize) -> (r: bool)
    ensures
        r == seen(present@, i as int),
{
    i < present.len() && present[i]
}

/// Which runtimes this machine could offer: those of the sockets that exist, and
/// Docker whenever `docker_host` is set, because nothing is known of what stands
/// behind it without connecting, and it is Docker's own variable.
///
/// `present` says of each candidate whether its socket exists.
pub fn available_runtimes(
    docker_host: &Option<String>,
    candidates: &Vec<Candidate>,
    present: &Vec<bool>,
) -> (r: Vec<Runtime>)
    ensures
        r@ == offered_runtimes(docker_host is Some, candidates_view(candidates@), present@),
{
    let mut found: Vec<Runtime> = Vec::new();
    if docker_host.is_some() {
        found.push(Runtime::Docker);
    }
    let ghost all = candidates_view(candidates@);
    let mut i: usize = 0;
    proof {
        assert(all.take(0) =~= Seq::empty());
        if docker_host is Some {
            assert(found@ =~= seq![Runtime::Docker]);
        }
    }
    while i < candidates.len()
        invariant
            i <= candidates@.len(),
            all == candidates_view(candidates@),
            found@ == offered_runtimes(docker_host is Some, all.take(i as int), present@),
        decreases candidates@.len() - i,
    {
        let runtime = candidates[i].runtime;
        proof {
            assert(all.take(i + 1).drop_last() =~= all.take(i as int));
            assert(all.take(i + 1).last() == all[i as int]);
        }
        if !holds_runtime(&found, runtime) && is_present(present, i) {
            found.push(runtime);
        }
        i += 1;
    }
    proof {
        assert(all.take(i as int) =~= all);
    }
    found
}

/// The runtimes on offer are exactly Docker, where `DOCKER_HOST` is set, and the
/// runtimes whose sockets exist; none is offered twice.
pub proof fn offered_runtimes_are_the_found_ones(
    host_set: bool,
    candidates: Seq<CandidateView>,
    present: Seq<bool>,
)
    ensures
        offered_runtimes(host_set, candidates, present).no_duplicates(),
        forall|runtime: Runtime|
            #[trigger] offered_runtimes(host_set, candidates, present).contains(runtime) <==> (
            host_set && runtime == Runtime::Docker) || exists|i: int|
                0 <= i < candidates.len() && seen(present, i) && #[trigger] candidates[i].runtime
                    == runtime,
    decreases candidates.len(),
{
    let all = offered_runtimes(host_set, candidates, present);
    if candidates.len() == 0 {
        if host_set {
            assert(all[0] == Runtime::Docker);
        }
    } else {
        let shorter = candidates.drop_last();
        let n = candidates.len() - 1;
        let last = candidates.last().runtime;
        let before = offered_runtimes(host_set, shorter, present);
        offered_runtimes_are_the_found_ones(host_set, shorter, present);
        assert forall|runtime: Runtime| #[trigger] all.contains(runtime) <==> (host_set && runtime
            == Runtime::Docker) || exists|i: int|
            0 <= i < candidates.len() && seen(present, i) && #[trigger] candidates[i].runtime
                == runtime by {
            assert(all.contains(runtime) <==> before.contains(runtime) || (runtime == last && seen(
                present,
                n,
            ))) by {
                if before.contains(runtime) {
                    let k = choose|k: int| 0 <= k < before.len() && before[k] == runtime;
                    assert(all[k] == runtime);
                }
                if all.len() > before.len() {
                    assert(all[before.len() as int] == last);
                }
                if all.contains(runtime) {
                    let k = choose|k: int| 0 <= k < all.len() && all[k] == runtime;
                    if k < before.len() {
                        assert(before[k] == runtime);
                    }
                }
            }
            if before.contains(runtime) && !(host_set && runtime == Runtime::Docker) {
                let i = choose|i: int|
                    0 <= i < shorter.len() && seen(present, i) && #[trigger] shorter[i].runtime
                        == runtime;
                assert(candidates[i].runtime == runtime);
            }
            if runtime == last && seen(present, n) {
                assert(candidates[n].runtime == runtime);
            }
            if exists|i: int|
                0 <= i < candidates.len() && seen(present, i) && #[trigger] candidates[i].runtime
                    == runtime {
                let i = choose|i: int|
                    0 <= i < candidates.len() && seen(present, i)
                        && #[trigger] candidates[i].runtime == runtime;
                if i < n {
                    assert(shorter[i].runtime == runtime);
                }
            }
        }
    }
}

// ---------------------------------------------------------------------------
// Where to connect.
// ---------------------------------------------------------------------------
/// Where a daemon was found.
#[derive(Debug, PartialEq, Eq)]
pub enum Endpoint {
    /// What `DOCKER_HOST` holds: a URL, not a path.
    DockerHost(String),
    /// A Unix socket on this machine.
    Socket(Candidate),
}

/// What an `Endpoint` holds.
#[verifier::ext_equal]
pub enum EndpointView {
    DockerHost(Seq<char>),
    Socket(CandidateView),
}

impl View for Endpoint {
    type V = EndpointView;

    open spec fn view(&self) -> EndpointView {
        match self {
            Endpoint::DockerHost(host) => EndpointView::DockerHost(host@),
            Endpoint::Socket(candidate) => EndpointView::Socket(candidate@),
        }
    }
}

/// Whether the candidate at `i` is one that `pref` admits and that exists.
pub open spec fn usable(
    pref: RuntimePreference,
    candidates: Seq<CandidateView>,
    present: Seq<bool>,
    i: int,
) -> bool {
    0 <= i < candidates.len() && admitted(pref, candidates[i].runtime) && seen(present, i)
}

/// The first usable candidate at `from` or behind it; the number of candidates where
/// there is none.
pub open spec fn first_usable(
    pref: RuntimePreference,
    candidates: Seq<CandidateView>,
    present: Seq<bool>,
    from: int,
) -> int
    decreases candidates.len() - from,
{
    if from >= candidates.len() || usable(pref, candidates, present, from) {
        from
    } else {
        first_usable(pref, candidates, present, from + 1)
    }
}

proof fn lemma_first_usable(
    pref: RuntimePreference,
    candidates: Seq<CandidateView>,
    present: Seq<bool>,
    from: int,
)
    requires
        0 <= from <= candidates.len(),
    ensures
        ({
            let i = first_usable(pref, candidates, present, from);
            &&& from <= i <= candidates.len()
            &&& i < candidates.len() ==> usable(pref, candidates, present, i)
            &&& forall|j: int| from <= j < i ==> !usable(pref, candidates, present, j)
        }),
    decreases candidates.len() - from,
{
    if from < candidates.len() && !usable(pref, candidates, present, from) {
        lemma_first_usable(pref, candidates, present, from + 1);
    }
}

/// What is wanted, by name, when nothing is found.
pub open spec fn wanted(pref: RuntimePreference) -> Seq<char> {
    match pref {
        RuntimePreference::Docker => "Docker"@,
        RuntimePreference::Podman => "Podman"@,
        RuntimePreference::Auto => "container runtime"@,
    }
}

/// How to get what is wanted.
pub open spec fn remedy(pref: RuntimePreference) -> Seq<char> {
    match pref {
        RuntimePreference::Docker => "    sudo systemctl enable --now docker.socket"@,
        RuntimePreference::Podman => "    systemctl --user enable --now podman.socket"@,
        RuntimePreference::Auto =>
            "    sudo systemctl enable --now docker.socket\nor:\n    systemctl --user enable --now podman.socket"@,
    }
}

/// The lines that say where a preference made the search look.
pub open spec fn checked_lines(
    pref: RuntimePreference,
    candidates: Seq<CandidateView>,
) -> Seq<Seq<char>> {
    candidates.filter_map(
        |candidate: CandidateView|
            if admitted(pref, candidate.runtime) {
                Some("    "@ + shown(candidate.path))
            } else {
                None
            },
    )
}

/// The message for a search that found nothing.
pub open spec fn not_found_text(
    pref: RuntimePreference,
    candidates: Seq<CandidateView>,
) -> Seq<char> {
    "No "@ + wanted(pref) + " socket found. Checked "@ + (if admitted(pref, Runtime::Docker) {
        "$DOCKER_HOST and "@
    } else {
        ""@
    }) + ":\n"@ + joined(checked_lines(pref, candidates), "\n"@)
        + "\n\nIs it installed and running? Try:\n"@ + remedy(pref)
}

/// The message for a search that found nothing: exactly where it looked, and how to fix
/// it for the runtime that was asked for.
pub fn nothing_found(pref: RuntimePreference, candidates: &Vec<Candidate>) -> (r: String)
    ensures
        r@ == not_found_text(pref, candidates_view(candidates@)),
{
    let ghost all = candidates_view(candidates@);
    let mut checked: Vec<String> = Vec::new();
    let mut i: usize = 0;
    proof {
        assert(texts(checked@) =~= checked_lines(pref, all.take(0)));
    }
    while i < candidates.len()
        invariant
            i <= candidates@.len(),
            all == candidates_view(candidates@),
            texts(checked@) == checked_lines(pref, all.take(i as int)),
        decreases candidates@.len() - i,
    {
        proof {
            assert(all.take(i + 1).drop_last() =~= all.take(i as int));
            assert(all.take(i + 1).last() == all[i as int]);
        }
        if pref.admits(candidates[i].runtime) {
            let ghost before = checked@;
            let mut line = "    ".to_owned();
            line.append(candidates[i].display().as_str());
            checked.push(line);
            proof {
                assert(texts(checked@) =~= texts(before).push(line@));
            }
        }
        i += 1;
    }
    proof {
        assert(all.take(i as int) =~= all);
    }
    let (what, how) = match pref {
        RuntimePreference::Docker => ("Docker", "    sudo systemctl enable --now docker.socket"),
        RuntimePreference::Podman => ("Podman", "    systemctl --user enable --now podman.socket"),
        RuntimePreference::Auto => (
            "container runtime",
            "    sudo systemctl enable --now docker.socket\nor:\n    systemctl --user enable --now podman.socket",
        ),
    };
    // The variable is not consulted for an explicit Podman preference.
    let env_note = if pref.admits(Runtime::Docker) {
        "$DOCKER_HOST and "
    } else {
        ""
    };
    let mut out = "No ".to_owned();
    out.append(what);
    out.append(" socket found. Checked ");
    out.append(env_note);
    out.append(":\n");
    out.append(join(&checked, "\n").as_str());
    out.append("\n\nIs it installed and running? Try:\n");
    out.append(how);
    out
}

/// The endpoint that a preference leads to, or the message where there is none.
pub open spec fn resolved(
    pref: RuntimePreference,
    host: Option<Seq<char>>,
    candidates: Seq<CandidateView>,
    present: Seq<bool>,
) -> Result<EndpointView, Seq<char>> {
    let i = first_usable(pref, candidates, present, 0);
    if admitted(pref, Runtime::Docker) && host is Some {
        Ok(EndpointView::DockerHost(host->0))
    } else if i < candidates.len() {
        Ok(EndpointView::Socket(candidates[i]))
    } else {
        Err(not_found_text(pref, candidates))
    }
}

/// What the result of a search holds.
pub open spec fn endpoint_result_view(
    r: Result<Endpoint, String>,
) -> Result<EndpointView, Seq<char>> {
    match r {
        Ok(endpoint) => Ok(endpoint@),
        Err(reason) => Err(reason@),
    }
}

/// The daemon's endpoint for `pref`: `docker_host` if it is set, else the first
/// candidate that exists and that `pref` admits. `present` says of each candidate
/// whether its socket exists.
///
/// `docker_host` is passed over where Podman was asked for: that wish is newer and more
/// specific than a variable named after the other runtime.
pub fn resolve_endpoint(
    pref: RuntimePreference,
    docker_host: Option<String>,
    candidates: &Vec<Candidate>,
    present: &Vec<bool>,
) -> (r: Result<Endpoint, String>)
    ensures
        endpoint_result_view(r) == resolved(
            pref,
            text_view(docker_host),
            candidates_view(candidates@),
            present@,
        ),
{
    if pref.admits(Runtime::Docker) {
        match docker_host {
            Some(host) => {
                return Ok(Endpoint::DockerHost(host));
            },
            None => {},
        }
    }
    let ghost all = candidates_view(candidates@);
    let mut i: usize = 0;
    while i < candidates.len()
        invariant
            i <= candidates@.len(),
            all == candidates_view(candidates@),
            !admitted(pref, Runtime::Docker) || docker_host is None,
            first_usable(pref, all, present@, 0) == first_usable(pref, all, present@, i as int),
        decreases candidates@.len() - i,
    {
        if pref.admits(candidates[i].runtime) && is_present(present, i) {
            return Ok(Endpoint::Socket(candidates[i].clone()));
        }
        i += 1;
    }
    Err(nothing_found(pref, candidates))
}

/// Where Podman was asked for, `DOCKER_HOST` is not used and does not matter.
pub proof fn podman_preference_ignores_docker_host(
    host: Option<Seq<char>>,
    candidates: Seq<CandidateView>,
    present: Seq<bool>,
)
    ensures
        resolved(RuntimePreference::Podman, host, candidates, present) == resolved(
            RuntimePreference::Podman,
            None,
            candidates,
            present,
        ),
        resolved(RuntimePreference::Podman, host, candidates, present) matches Ok(endpoint)
            ==> endpoint is Socket,
{
}

/// A search without a usable `DOCKER_HOST` finds the first candidate that the
/// preference admits and that exists, and fails only where there is none.
pub proof fn search_finds_the_first_usable_socket(
    pref: RuntimePreference,
    candidates: Seq<CandidateView>,
    present: Seq<bool>,
)
    ensures
        match resolved(pref, None, candidates, present) {
            Ok(endpoint) => exists|i: int|
                usable(pref, candidates, present, i) && endpoint == EndpointView::Socket(
                    candidates[i],
                ) && forall|j: int| 0 <= j < i ==> !usable(pref, candidates, present, j),
            Err(_) => forall|i: int| !usable(pref, candidates, present, i),
        },
{
    lemma_first_usable(pref, candidates, present, 0);
}

/// On a machine where a socket of Docker's exists, an automatic search of the candidates
/// never ends up with Podman.
pub proof fn automatic_search_prefers_docker(dir: Option<Seq<u8>>, present: Seq<bool>, k: int)
    requires
        0 <= k < candidate_list(dir).len(),
        seen(present, k),
        candidate_list(dir)[k].runtime == Runtime::Docker,
    ensures
        resolved(RuntimePreference::Auto, None, candidate_list(dir), present) matches Ok(
            EndpointView::Socket(candidate),
        ) && candidate.runtime == Runtime::Docker,
{
    let all = candidate_list(dir);
    lemma_first_usable(RuntimePreference::Auto, all, present, 0);
    candidates_put_docker_first(dir);
    let i = first_usable(RuntimePreference::Auto, all, present, 0);
    assert(usable(RuntimePreference::Auto, all, present, k));
    if all[i].runtime == Runtime::Podman {
        assert(all[k].runtime == Runtime::Docker);
    }
}

/// Both halves stand in a text that is put together from them.
proof fn lemma_occurs_in_sum(a: Seq<char>, b: Seq<char>)
    ensures
        occurs_at(a + b, a, 0),
        occurs_at(a + b, b, a.len() as int),
{
    assert((a + b).subrange(0, a.len() as int) =~= a);
    assert((a + b).subrange(a.len() as int, (a + b).len() as int) =~= b);
}

/// What stands in a part of a text stands in the text.
proof fn lemma_occurs_within(
    outer: Seq<char>,
    inner: Seq<char>,
    pattern: Seq<char>,
    i: int,
    j: int,
)
    requires
        occurs_at(outer, inner, i),
        occurs_at(inner, pattern, j),
    ensures
        occurs_at(outer, pattern, i + j),
{
    assert(outer.subrange(i + j, i + j + pattern.len()) =~= outer.subrange(
        i,
        i + inner.len(),
    ).subrange(j, j + pattern.len()));
}

/// Every part stands in the text that the parts are joined to.
proof fn lemma_joined_contains(parts: Seq<Seq<char>>, separator: Seq<char>, k: int) -> (i: int)
    requires
        0 <= k < parts.len(),
    ensures
        occurs_at(joined(parts, separator), parts[k], i),
    decreases parts.len(),
{
    let all = joined(parts, separator);
    if parts.len() == 1 {
        assert(all.subrange(0, all.len() as int) =~= parts[k]);
        0
    } else {
        let head = joined(parts.drop_last(), separator);
        if k == parts.len() - 1 {
            let i = (head + separator).len() as int;
            assert(all.subrange(i, i + parts[k].len()) =~= parts[k]);
            i
        } else {
            let i = lemma_joined_contains(parts.drop_last(), separator, k);
            assert(parts.drop_last()[k] == parts[k]);
            assert(all.subrange(i, i + parts[k].len()) =~= head.subrange(i, i + parts[k].len()));
            i
        }
    }
}

/// A line for each admitted candidate stands among the lines of what was checked.
proof fn lemma_checked_lines(pref: RuntimePreference, candidates: Seq<CandidateView>, k: int) -> (i:
    int)
    requires
        0 <= k < candidates.len(),
        admitted(pref, candidates[k].runtime),
    ensures
        0 <= i < checked_lines(pref, candidates).len(),
        checked_lines(pref, candidates)[i] == "    "@ + shown(candidates[k].path),
    decreases candidates.len(),
{
    let shorter = candidates.drop_last();
    if k == candidates.len() - 1 {
        checked_lines(pref, shorter).len() as int
    } else {
        assert(shorter[k] == candidates[k]);
        lemma_checked_lines(pref, shorter, k)
    }
}

/// The message for a search that found nothing names every path that was looked at.
pub proof fn not_found_text_names_every_path(
    pref: RuntimePreference,
    candidates: Seq<CandidateView>,
    k: int,
)
    requires
        0 <= k < candidates.len(),
        admitted(pref, candidates[k].runtime),
    ensures
        contains_text(not_found_text(pref, candidates), shown(candidates[k].path)),
{
    let lines = checked_lines(pref, candidates);
    let path = shown(candidates[k].path);
    let list = joined(lines, "\n"@);
    let line = lemma_checked_lines(pref, candidates, k);
    let at = lemma_joined_contains(lines, "\n"@, line);
    let head = "No "@ + wanted(pref) + " socket found. Checked "@ + (if admitted(
        pref,
        Runtime::Docker,
    ) {
        "$DOCKER_HOST and "@
    } else {
        ""@
    }) + ":\n"@;
    let tail = "\n\nIs it installed and running? Try:\n"@;
    let i = "    "@.len() as int;
    lemma_occurs_in_sum("    "@, path);
    lemma_occurs_within(list, "    "@ + path, path, at, i);
    lemma_occurs_in_sum(head, list);
    lemma_occurs_within(head + list, list, path, head.len() as int, at + i);
    lemma_occurs_in_sum(head + list, tail);
    lemma_occurs_within(head + list + tail, head + list, path, 0, head.len() + at + i);
    lemma_occurs_in_sum(head + list + tail, remedy(pref));
    lemma_occurs_within(
        head + list + tail + remedy(pref),
        head + list + tail,
        path,
        0,
        head.len() + at + i,
    );
}

/// The message for a search that found nothing speaks only of candidates that the
/// preference admits: the others do not change it.
pub proof fn not_found_text_names_only_admitted_paths(
    pref: RuntimePreference,
    candidates: Seq<CandidateView>,
    more: CandidateView,
)
    requires
        !admitted(pref, more.runtime),
    ensures
        not_found_text(pref, candidates.push(more)) == not_found_text(pref, candidates),
{
    assert(candidates.push(more).drop_last() =~= candidates);
}

// ---------------------------------------------------------------------------
// What to say when connecting fails.
// ---------------------------------------------------------------------------
/// What came of opening a socket directly.
#[derive(Debug, Clone, PartialEq, Eq)]
pub enum Probe {
    /// The socket could be opened, so the daemon itself is the problem.
    Accepted,
    PermissionDenied,
    ConnectionRefused,
    /// Any other error, as the system words it.
    Failed(String),
}

/// The command that shows how a candidate's daemon is doing.
pub open spec fn status_command(runtime: Runtime, rootless: bool) -> Seq<char> {
    match (runtime, rootless) {
        (Runtime::Docker, true) => "    systemctl --user status docker"@,
        (Runtime::Docker, false) => "    systemctl status docker"@,
        (Runtime::Podman, true) => "    systemctl --user status podman.socket"@,
        (Runtime::Podman, false) => "    sudo systemctl status podman.socket"@,
    }
}

/// The command that starts a candidate's socket.
pub open spec fn start_command(runtime: Runtime, rootless: bool) -> Seq<char> {
    match (runtime, rootless) {
        (Runtime::Docker, true) => "    systemctl --user start docker.socket"@,
        (Runtime::Docker, false) => "    sudo systemctl start docker.socket"@,
        (Runtime::Podman, true) => "    systemctl --user enable --now podman.socket"@,
        (Runtime::Podman, false) => "    sudo systemctl enable --now podman.socket"@,
    }
}

/// The message for a socket that may not be opened.
pub open spec fn permission_text(candidate: CandidateView) -> Seq<char> {
    "No permission to access "@ + shown(candidate.path) + (match candidate.runtime {
        Runtime::Docker =>
            ".\n\nYou're probably not in the `docker` group. Add yourself, then log out and back in:\n    sudo usermod -aG docker $USER"@,
        Runtime::Podman =>
            ".\n\nThat's Podman's system socket, which belongs to root. Rootless Podman is the usual setup:\n    systemctl --user enable --now podman.socket"@,
    })
}

/// The message for a daemon that did not answer, given what opening its socket showed.
pub open spec fn diagnosis(candidate: CandidateView, probe: Probe) -> Seq<char> {
    let path = shown(candidate.path);
    match probe {
        Probe::Accepted => "The socket at "@ + path
            + " accepted a connection, but the daemon didn't respond.\n\nTry:\n"@ + status_command(
            candidate.runtime,
            candidate.rootless,
        ),
        Probe::PermissionDenied => permission_text(candidate),
        Probe::ConnectionRefused => "Nothing is listening on "@ + path + ".\n\nThe "@
            + runtime_label(candidate.runtime) + " daemon looks stopped. Try:\n"@ + start_command(
            candidate.runtime,
            candidate.rootless,
        ),
        Probe::Failed(error) => "Can't connect to "@ + path + ": "@ + error@,
    }
}

/// How to ask this runtime what it is doing.
pub fn status_hint(candidate: &Candidate) -> (r: &'static str)
    ensures
        r@ == status_command(candidate.runtime, candidate.rootless),
{
    match (candidate.runtime, candidate.rootless) {
        (Runtime::Docker, true) => "    systemctl --user status docker",
        (Runtime::Docker, false) => "    systemctl status docker",
        (Runtime::Podman, true) => "    systemctl --user status podman.socket",
        (Runtime::Podman, false) => "    sudo systemctl status podman.socket",
    }
}

/// How to start this runtime's socket. Podman's is not enabled by default.
pub fn start_hint(candidate: &Candidate) -> (r: &'static str)
    ensures
        r@ == start_command(candidate.runtime, candidate.rootless),
{
    match (candidate.runtime, candidate.rootless) {
        (Runtime::Docker, true) => "    systemctl --user start docker.socket",
        (Runtime::Docker, false) => "    sudo systemctl start docker.socket",
        (Runtime::Podman, true) => "    systemctl --user enable --now podman.socket",
        (Runtime::Podman, false) => "    sudo systemctl enable --now podman.socket",
    }
}

/// What to do about a socket that may not be opened: it means something different for
/// each runtime. Podman's rootless socket is the user's own, so a denial almost always
/// comes from the system's, and sudo would be the wrong advice.
pub fn permission_hint(candidate: &Candidate) -> (r: String)
    ensures
        r@ == permission_text(candidate@),
{
    let mut out = "No permission to access ".to_owned();
    out.append(candidate.display().as_str());
    match candidate.runtime {
        Runtime::Docker => out.append(
            ".\n\nYou're probably not in the `docker` group. Add yourself, then log out and back in:\n    sudo usermod -aG docker $USER",
        ),
        Runtime::Podman => out.append(
            ".\n\nThat's Podman's system socket, which belongs to root. Rootless Podman is the usual setup:\n    systemctl --user enable --now podman.socket",
        ),
    }
    out
}

/// Turns a failed connection into something that the user can act on. The usual cause
/// is that the user may not open the socket, so `probe` says what opening it showed.
pub fn diagnose(candidate: &Candidate, probe: &Probe) -> (r: String)
    ensures
        r@ == diagnosis(candidate@, *probe),
{
    let path = candidate.display();
    match probe {
        Probe::Accepted => {
            let mut out = "The socket at ".to_owned();
            out.append(path.as_str());
            out.append(" accepted a connection, but the daemon didn't respond.\n\nTry:\n");
            out.append(status_hint(candidate));
            out
        },
        Probe::PermissionDenied => permission_hint(candidate),
        Probe::ConnectionRefused => {
            let mut out = "Nothing is listening on ".to_owned();
            out.append(path.as_str());
            out.append(".\n\nThe ");
            out.append(candidate.runtime.label());
            out.append(" daemon looks stopped. Try:\n");
            out.append(start_hint(candidate));
            out
        },
        Probe::Failed(error) => {
            let mut out = "Can't connect to ".to_owned();
            out.append(path.as_str());
            out.append(": ");
            out.append(error.as_str());
            out
        },
    }
}

// ---------------------------------------------------------------------------
// Which runtime answered.
// ---------------------------------------------------------------------------
/// One component of a daemon, as it reports it.
#[derive(Debug, Clone, PartialEq, Eq)]
pub struct SystemVersionComponents {
    pub name: String,
    pub version: String,
}

/// The daemon's reply to the question for its version. Any field may be missing.
#[derive(Debug, Clone, PartialEq, Eq)]
pub struct SystemVersion {
    pub version: Option<String>,
    pub components: Option<Vec<SystemVersionComponents>>,
}

impl Default for SystemVersion {
    fn default() -> (r: SystemVersion)
        ensures
            r.version is None,
            r.components is None,
    {
        SystemVersion { version: None, components: None }
    }
}

/// The version of the first component at `from` or behind it whose name holds "Podman".
pub open spec fn podman_version(
    components: Seq<SystemVersionComponents>,
    from: int,
) -> Option<Seq<char>>
    decreases components.len() - from,
{
    if from >= components.len() {
        None
    } else if contains_text(components[from].name@, "Podman"@) {
        Some(components[from].version@)
    } else {
        podman_version(components, from + 1)
    }
}

/// The runtime that a reply comes from, and the version that it reports.
pub open spec fn identified(version: SystemVersion) -> (Runtime, Seq<char>) {
    let podman = match version.components {
        Some(components) => podman_version(components@, 0),
        None => None,
    };
    (
        if podman is Some {
            Runtime::Podman
        } else {
            Runtime::Docker
        },
        match (version.version, podman) {
            (Some(reported), _) => reported@,
            (None, Some(reported)) => reported,
            (None, None) => "unknown"@,
        },
    )
}

fn find_podman(components: &Vec<SystemVersionComponents>) -> (r: Option<String>)
    ensures
        text_view(r) == podman_version(components@, 0),
{
    let mut i: usize = 0;
    while i < components.len()
        invariant
            i <= components@.len(),
            podman_version(components@, 0) == podman_version(components@, i as int),
        decreases components@.len() - i,
    {
        if text_contains(components[i].name.as_str(), "Podman") {
            return Some(components[i].version.clone());
        }
        i += 1;
    }
    None
}

/// Which runtime is behind a connection, and what version it reports.
///
/// Podman lists a component named "Podman Engine" (Docker's is just "Engine"), also
/// where Podman stands behind Docker's socket. Both fill the top-level version; the
/// component's is for a daemon that reports the one and not the other.
pub fn identify(version: &SystemVersion) -> (r: (Runtime, String))
    ensures
        (r.0, r.1@) == identified(*version),
{
    let podman = match &version.components {
        Some(components) => find_podman(components),
        None => None,
    };
    let runtime = if podman.is_some() {
        Runtime::Podman
    } else {
        Runtime::Docker
    };
    let reported = match &version.version {
        Some(reported) => reported.clone(),
        None => match podman {
            Some(reported) => reported,
            None => "unknown".to_owned(),
        },
    };
    (runtime, reported)
}

/// A daemon counts as Podman exactly where one of its components is named so, wherever
/// its socket lies.
pub proof fn podman_is_told_by_its_components(version: SystemVersion)
    ensures
        identified(version).0 == Runtime::Podman <==> (version.components is Some && exists|i: int|
            0 <= i < version.components->0@.len() && contains_text(
                (#[trigger] version.components->0@[i]).name@,
                "Podman"@,
            )),
{
    if version.components is Some {
        let components = version.components->0@;
        lemma_podman_version(components, 0);
    }
}

proof fn lemma_podman_version(components: Seq<SystemVersionComponents>, from: int)
    requires
        0 <= from <= components.len(),
    ensures
        podman_version(components, from) is Some <==> exists|i: int|
            from <= i < components.len() && contains_text(
                (#[trigger] components[i]).name@,
                "Podman"@,
            ),
    decreases components.len() - from,
{
    if from < components.len() {
        lemma_podman_version(components, from + 1);
        if contains_text(components[from].name@, "Podman"@) {
            assert(contains_text((#[trigger] components[from]).name@, "Podman"@));
        }
    }
}

// ---------------------------------------------------------------------------
// Connecting, step by step.
// ---------------------------------------------------------------------------
/// What to do next in order to connect. The caller does it, and hands what came of it
/// to `advance`.
///
/// Building a client does not touch the socket, so a dead daemon would show only at the
/// first request: the ping is what tells a connection from a handle to nothing.
#[derive(Debug, PartialEq, Eq)]
pub enum ConnectStep {
    /// Build a client from `DOCKER_HOST`, which holds `host`.
    BuildFromEnvironment { host: String },
    /// Build a client for the socket at `path`, which is that of `candidate`.
    BuildForSocket { candidate: Candidate, path: String },
    /// Ping the daemon.
    Ping { endpoint: Endpoint },
    /// Open the candidate's socket directly, to see what is wrong with it.
    OpenSocket { candidate: Candidate },
    /// Ask the daemon for its version.
    AskVersion { endpoint: Endpoint },
    Connected { connection: Connection },
    Failed { reason: String },
}

/// What a `ConnectStep` holds.
#[verifier::ext_equal]
pub enum ConnectStepView {
    BuildFromEnvironment { host: Seq<char> },
    BuildForSocket { candidate: CandidateView, path: Seq<char> },
    Ping { endpoint: EndpointView },
    OpenSocket { candidate: CandidateView },
    AskVersion { endpoint: EndpointView },
    Connected { runtime: Runtime, version: Seq<char> },
    Failed { reason: Seq<char> },
}

impl View for ConnectStep {
    type V = ConnectStepView;

    open spec fn view(&self) -> ConnectStepView {
        match self {
            ConnectStep::BuildFromEnvironment { host } => ConnectStepView::BuildFromEnvironment {
                host: host@,
            },
            ConnectStep::BuildForSocket { candidate, path } => ConnectStepView::BuildForSocket {
                candidate: candidate@,
                path: path@,
            },
            ConnectStep::Ping { endpoint } => ConnectStepView::Ping { endpoint: endpoint@ },
            ConnectStep::OpenSocket { candidate } => ConnectStepView::OpenSocket {
                candidate: candidate@,
            },
            ConnectStep::AskVersion { endpoint } => ConnectStepView::AskVersion {
                endpoint: endpoint@,
            },
            ConnectStep::Connected { connection } => ConnectStepView::Connected {
                runtime: connection.runtime,
                version: connection.version@,
            },
            ConnectStep::Failed { reason } => ConnectStepView::Failed { reason: reason@ },
        }
    }
}

/// What came of a step.
#[derive(Debug, Clone, PartialEq, Eq)]
pub enum ConnectEvent {
    /// The client was built, or the ping was answered.
    Done,
    /// The step failed, with the error's text.
    Refused(String),
    /// The socket was opened, or could not be.
    Probed(Probe),
    /// The daemon said what it is.
    Reported(SystemVersion),
}

/// The first step towards the endpoint that a preference leads to.
pub open spec fn connecting(
    pref: RuntimePreference,
    host: Option<Seq<char>>,
    candidates: Seq<CandidateView>,
    present: Seq<bool>,
) -> ConnectStepView {
    match resolved(pref, host, candidates, present) {
        Ok(EndpointView::DockerHost(host)) => ConnectStepView::BuildFromEnvironment { host },
        Ok(EndpointView::Socket(candidate)) => if valid_utf8(candidate.path) {
            ConnectStepView::BuildForSocket { candidate, path: decode_utf8(candidate.path) }
        } else {
            ConnectStepView::Failed { reason: "socket path isn't valid UTF-8"@ }
        },
        Err(reason) => ConnectStepView::Failed { reason },
    }
}

/// The runtime that an endpoint suggests where the daemon does not say.
pub open spec fn guessed_runtime(endpoint: EndpointView) -> Runtime {
    match endpoint {
        EndpointView::DockerHost(_) => Runtime::Docker,
        EndpointView::Socket(candidate) => candidate.runtime,
    }
}

/// The step that follows `step` when `event` came of it. What did not come of it does
/// not change it.
pub open spec fn advanced(step: ConnectStepView, event: ConnectEvent) -> ConnectStepView {
    match (step, event) {
        (ConnectStepView::BuildFromEnvironment { host }, ConnectEvent::Done) =>
            ConnectStepView::Ping { endpoint: EndpointView::DockerHost(host) },
        (ConnectStepView::BuildFromEnvironment { host }, ConnectEvent::Refused(error)) =>
            ConnectStepView::Failed {
                reason: "DOCKER_HOST is set to `"@ + host + "`, but that isn't usable: "@ + error@,
            },
        (ConnectStepView::BuildForSocket { candidate, path }, ConnectEvent::Done) =>
            ConnectStepView::Ping { endpoint: EndpointView::Socket(candidate) },
        (ConnectStepView::BuildForSocket { candidate, path }, ConnectEvent::Refused(error)) =>
            ConnectStepView::Failed {
                reason: "failed to build a client for "@ + path + ": "@ + error@,
            },
        (ConnectStepView::Ping { endpoint }, ConnectEvent::Done) => ConnectStepView::AskVersion {
            endpoint,
        },
        (ConnectStepView::Ping { endpoint }, ConnectEvent::Refused(error)) => match endpoint {
            EndpointView::Socket(candidate) => ConnectStepView::OpenSocket { candidate },
            EndpointView::DockerHost(host) => ConnectStepView::Failed {
                reason: "Couldn't reach a container runtime at `"@ + host + "`: "@ + error@,
            },
        },
        (ConnectStepView::OpenSocket { candidate }, ConnectEvent::Probed(probe)) =>
            ConnectStepView::Failed { reason: diagnosis(candidate, probe) },
        (ConnectStepView::AskVersion { endpoint }, ConnectEvent::Reported(version)) =>
            ConnectStepView::Connected {
                runtime: identified(version).0,
                version: identified(version).1,
            },
        (ConnectStepView::AskVersion { endpoint }, ConnectEvent::Refused(_)) =>
            ConnectStepView::Connected {
                runtime: guessed_runtime(endpoint),
                version: "unknown"@,
            },
        _ => step,
    }
}

/// How to begin connecting to the runtime that `pref` asks for.
pub fn connect(
    pref: RuntimePreference,
    docker_host: Option<String>,
    candidates: &Vec<Candidate>,
    present: &Vec<bool>,
) -> (r: ConnectStep)
    ensures
        r@ == connecting(
            pref,
            text_view(docker_host),
            candidates_view(candidates@),
            present@,
        ),
{
    match resolve_endpoint(pref, docker_host, candidates, present) {
        Ok(Endpoint::DockerHost(host)) => ConnectStep::BuildFromEnvironment { host },
        Ok(Endpoint::Socket(candidate)) => {
            let bytes = candidate.path.clone();
            proof {
                assert(bytes@ =~= candidate.path@);
            }
            match from_utf8(bytes) {
                Some(path) => ConnectStep::BuildForSocket { candidate, path },
                None => ConnectStep::Failed { reason: "socket path isn't valid UTF-8".to_owned() },
            }
        },
        Err(reason) => ConnectStep::Failed { reason },
    }
}

impl ConnectStep {
    /// The step that follows this one when `event` came of it.
    pub fn advance(self, event: ConnectEvent) -> (r: ConnectStep)
        ensures
            r@ == advanced(self@, event),
    {
        match (self, event) {
            (ConnectStep::BuildFromEnvironment { host }, ConnectEvent::Done) => ConnectStep::Ping {
                endpoint: Endpoint::DockerHost(host),
            },
            (ConnectStep::BuildFromEnvironment { host }, ConnectEvent::Refused(error)) => {
                let mut reason = "DOCKER_HOST is set to `".to_owned();
                reason.append(host.as_str());
                reason.append("`, but that isn't usable: ");
                reason.append(error.as_str());
                ConnectStep::Failed { reason }
            },
            (ConnectStep::BuildForSocket { candidate, path }, ConnectEvent::Done) =>
                ConnectStep::Ping { endpoint: Endpoint::Socket(candidate) },
            (ConnectStep::BuildForSocket { candidate, path }, ConnectEvent::Refused(error)) => {
                let mut reason = "failed to build a client for ".to_owned();
                reason.append(path.as_str());
                reason.append(": ");
                reason.append(error.as_str());
                ConnectStep::Failed { reason }
            },
            (ConnectStep::Ping { endpoint }, ConnectEvent::Done) => ConnectStep::AskVersion {
                endpoint,
            },
            (ConnectStep::Ping { endpoint }, ConnectEvent::Refused(error)) => match endpoint {
                // A local socket can be looked at; of a host there is only the error.
                Endpoint::Socket(candidate) => ConnectStep::OpenSocket { candidate },
                Endpoint::DockerHost(host) => {
                    let mut reason = "Couldn't reach a container runtime at `".to_owned();
                    reason.append(host.as_str());
                    reason.append("`: ");
                    reason.append(error.as_str());
                    ConnectStep::Failed { reason }
                },
            },
            (ConnectStep::OpenSocket { candidate }, ConnectEvent::Probed(probe)) =>
                ConnectStep::Failed { reason: diagnose(&candidate, &probe) },
            (ConnectStep::AskVersion { endpoint }, ConnectEvent::Reported(reported)) => {
                let (runtime, version) = identify(&reported);
                ConnectStep::Connected { connection: Connection { runtime, version } }
            },
            // It answered the ping a moment ago, so to refuse over a missing version
            // would be the worse failure.
            (ConnectStep::AskVersion { endpoint }, ConnectEvent::Refused(_)) => {
                let runtime = match &endpoint {
                    Endpoint::Socket(candidate) => candidate.runtime,
                    Endpoint::DockerHost(_) => Runtime::Docker,
                };
                ConnectStep::Connected {
                    connection: Connection { runtime, version: "unknown".to_owned() },
                }
            },
            (step, _) => step,
        }
    }
}

/// Nothing counts as connected before the daemon answered a ping; after that, nothing
/// that comes of asking for the version makes the connection fail.
pub proof fn connected_means_the_ping_was_answered(step: ConnectStepView, event: ConnectEvent)
    ensures
        advanced(step, event) is Connected ==> step is AskVersion || step is Connected,
        advanced(step, event) is AskVersion ==> step is AskVersion || (step is Ping
            && event is Done),
        step is AskVersion ==> !(advanced(step, event) is Failed),
{
}

/// Connecting never starts at the end: it begins with building a client, or it has
/// failed already.
pub proof fn connecting_begins_with_a_client(
    pref: RuntimePreference,
    host: Option<Seq<char>>,
    candidates: Seq<CandidateView>,
    present: Seq<bool>,
)
    ensures
        ({
            let step = connecting(pref, host, candidates, present);
            step is BuildFromEnvironment || step is BuildForSocket || step is Failed
        }),
{
}

/// Once connecting has ended, nothing changes how it ended.
pub proof fn connecting_ends_once(step: ConnectStepView, event: ConnectEvent)
    ensures
        step is Connected || step is Failed ==> advanced(step, event) == step,
{
}

// ---------------------------------------------------------------------------
// Failures, shortened.
// ---------------------------------------------------------------------------
/// A failed request.
#[derive(Debug, Clone, PartialEq, Eq)]
pub enum DockerError {
    /// The daemon answered with an error.
    ServerError { status_code: u16, message: String },
    /// The daemon did not answer.
    Other,
}

/// Where `pattern` first stands in `s`, which holds it.
pub open spec fn first_place(s: Seq<char>, pattern: Seq<char>) -> int {
    choose|i: int| first_occurrence(s, pattern, i)
}

/// What follows the first `pattern` in `s`, which holds it.
pub open spec fn after_first(s: Seq<char>, pattern: Seq<char>) -> Seq<char> {
    s.skip(first_place(s, pattern) + pattern.len())
}

/// The reason in a message of the form `<action> "<id>": <reason>: <remedy>`; a message
/// that quotes no id is all reason.
pub open spec fn reason_text(message: Seq<char>) -> Seq<char> {
    if contains_text(message, "\": "@) {
        let after_id = after_first(message, "\": "@);
        trimmed(after_id.take(first_char(after_id, ':')))
    } else {
        trimmed(message)
    }
}

proof fn lemma_after_first(s: Seq<char>, pattern: Seq<char>, i: int)
    requires
        first_occurrence(s, pattern, i),
    ensures
        contains_text(s, pattern),
        after_first(s, pattern) == s.skip(i + pattern.len()),
{
    let k = first_place(s, pattern);
    assert(first_occurrence(s, pattern, k));
    assert(occurs_at(s, pattern, i));
    if k < i {
        assert(!occurs_at(s, pattern, k));
    } else if i < k {
        assert(!occurs_at(s, pattern, i));
    }
}

/// Pulls the reason out of the daemon's `<action> "<id>": <reason>: <remedy>`.
///
/// A message of another shape comes back whole, but for white space around it: a long
/// notice beats a wrong one.
pub fn reason_clause(message: &str) -> (r: String)
    ensures
        r@ == reason_text(message@),
{
    let chars = chars_of(message);
    let pattern = chars_of("\": ");
    let n = chars.len();
    let from: usize = match find_text(&chars, &pattern) {
        Some(i) => {
            proof {
                lemma_after_first(message@, "\": "@, i as int);
            }
            i + pattern.len()
        },
        None => {
            proof {
                assert(chars@.subrange(0, n as int) =~= message@);
            }
            return trim_range(&chars, 0, n);
        },
    };
    let ghost after_id = after_first(message@, "\": "@);
    proof {
        lemma_first_char(after_id, ':');
    }
    let mut to: usize = from;
    while to < chars.len() && chars[to] != ':'
        invariant
            from <= to <= chars@.len(),
            forall|k: int| from <= k < to ==> #[trigger] chars@[k] != ':',
        decreases chars@.len() - to,
    {
        to += 1;
    }
    proof {
        assert forall|k: int| 0 <= k < to - from implies #[trigger] after_id[k] != ':' by {
            assert(after_id[k] == chars@[from + k]);
        }
        if to < chars@.len() {
            assert(after_id[to - from] == ':');
        }
        assert(first_char(after_id, ':') == to - from);
        assert(after_id.take(to - from) =~= chars@.subrange(from as int, to as int));
    }
    trim_range(&chars, from, to)
}

/// The reason in a message that quotes an id holds no colon; and no reason begins or ends
/// with white space.
pub proof fn reason_text_is_one_clause(message: Seq<char>)
    ensures
        contains_text(message, "\": "@) ==> !reason_text(message).contains(':'),
        reason_text(message).len() > 0 ==> !white_space(reason_text(message)[0]) && !white_space(
            reason_text(message).last(),
        ),
{
    let r = reason_text(message);
    if contains_text(message, "\": "@) {
        let after_id = after_first(message, "\": "@);
        let clause = after_id.take(first_char(after_id, ':'));
        lemma_first_char(after_id, ':');
        lemma_trimmed(clause);
        if r.contains(':') {
            let k = choose|k: int| 0 <= k < r.len() && r[k] == ':';
            assert(clause.contains(r[k]));
            let j = choose|j: int| 0 <= j < clause.len() && clause[j] == ':';
            assert(after_id[j] == ':');
        }
    } else {
        lemma_trimmed(message);
    }
}

/// In a message of the daemon's usual shape, the reason is what stands between the
/// quoted id and the remedy.
pub proof fn reason_text_is_the_reason(head: Seq<char>, reason: Seq<char>, rest: Seq<char>)
    requires
        !reason.contains(':'),
        rest.len() == 0 || rest[0] == ':',
        forall|i: int|
            0 <= i < head.len() ==> !occurs_at(head + "\": "@ + reason + rest, "\": "@, i),
    ensures
        reason_text(head + "\": "@ + reason + rest) == trimmed(reason),
{
    let message = head + "\": "@ + reason + rest;
    assert(message.subrange(head.len() as int, (head + "\": "@).len() as int) =~= "\": "@);
    assert(first_occurrence(message, "\": "@, head.len() as int));
    lemma_after_first(message, "\": "@, head.len() as int);
    let after_id = after_first(message, "\": "@);
    assert(after_id =~= reason + rest);
    assert forall|k: int| 0 <= k < reason.len() implies #[trigger] after_id[k] != ':' by {
        assert(after_id[k] == reason[k]);
        assert(reason.contains(reason[k]));
    }
    if rest.len() > 0 {
        assert(after_id[reason.len() as int] == ':');
    }
    lemma_first_char(after_id, ':');
    assert(first_char(after_id, ':') == reason.len());
    assert(after_id.take(reason.len() as int) =~= reason);
}

/// A message of another shape, which quotes no id, is kept whole, but for white space
/// around it; so is every message without a colon.
pub proof fn reason_text_keeps_a_message_of_another_shape(message: Seq<char>)
    requires
        !contains_text(message, "\": "@) || !message.contains(':'),
    ensures
        reason_text(message) == trimmed(message),
{
    if contains_text(message, "\": "@) {
        let i = choose|i: int| occurs_at(message, "\": "@, i);
        reveal_strlit("\": ");
        assert(message.subrange(i, i + "\": "@.len())[1] == ':');
        assert(message[i + 1] == ':');
    }
}

/// The short form of a failure.
pub open spec fn short_text(err: DockerError) -> Seq<char> {
    match err {
        DockerError::ServerError { status_code, message } => if status_code == 404 {
            "it no longer exists"@
        } else {
            reason_text(message@)
        },
        DockerError::Other => "Docker isn't responding"@,
    }
}

/// Reduces a failure to something that fits on one line. The user knows which container
/// and which action it was; all that is missing is why.
///
/// A container that is gone was removed between the poll that drew its row and the
/// click on it: routine, and the daemon's own wording is a wall of id.
pub fn short_reason(err: &DockerError) -> (r: String)
    ensures
        r@ == short_text(*err),
{
    match err {
        DockerError::ServerError { status_code, message } => if *status_code == 404 {
            "it no longer exists".to_owned()
        } else {
            reason_clause(message.as_str())
        },
        DockerError::Other => "Docker isn't responding".to_owned(),
    }
}

// ---------------------------------------------------------------------------
// Replies.
// ---------------------------------------------------------------------------
/// The order of containers by name.
pub open spec fn name_leq() -> spec_fn(ContainerView, ContainerView) -> bool {
    |a: ContainerView, b: ContainerView| text_leq(a.name, b.name)
}

/// The containers that summaries stand for, in their order.
pub open spec fn summary_containers(summaries: Seq<ContainerSummary>) -> Seq<ContainerView> {
    summaries.filter_map(|summary: ContainerSummary| summary_container(summary))
}

/// The containers that summaries stand for, by name.
pub open spec fn container_list(summaries: Seq<ContainerSummary>) -> Seq<ContainerView> {
    stable_sorted(summary_containers(summaries), name_leq())
}

proof fn lemma_name_leq_total()
    ensures
        total_preorder(name_leq()),
{
    let leq = name_leq();
    assert forall|x: ContainerView, y: ContainerView| #[trigger] leq(x, y) || leq(y, x) by {
        lemma_text_leq_total(x.name, y.name);
    }
    assert forall|x: ContainerView, y: ContainerView, z: ContainerView| #[trigger]
        leq(x, y) && #[trigger] leq(y, z) implies leq(x, z) by {
        lemma_text_leq_transitive(x.name, y.name, z.name);
    }
}

/// Puts `container` behind everything in `sorted` that it does not precede.
fn insert_by_name(sorted: &mut Vec<Container>, container: Container, seen: Ghost<Seq<ContainerView>>)
    requires
        is_stable_sort(seen@, containers_view(old(sorted)@), name_leq()),
    ensures
        is_stable_sort(seen@.push(container@), containers_view(final(sorted)@), name_leq()),
{
    let ghost leq = name_leq();
    let ghost before = containers_view(sorted@);
    let mut at: usize = sorted.len();
    while at > 0 && !text_in_order(sorted[at - 1].name.as_str(), container.name.as_str())
        invariant
            at <= sorted@.len(),
            leq == name_leq(),
            before == containers_view(sorted@),
            forall|k: int| at <= k < before.len() ==> !leq(#[trigger] before[k], container@),
        decreases at,
    {
        at -= 1;
    }
    proof {
        lemma_name_leq_total();
        assert forall|k: int| 0 <= k < at implies leq(#[trigger] before[k], container@) by {
            assert(leq(before[at - 1], container@));
            if k < at - 1 {
                assert(leq(before[k], before[at - 1]));
            }
        }
        lemma_insert_keeps_stable_sort(seen@, before, container@, at as int, leq);
    }
    let ghost added = container@;
    sorted.insert(at, container);
    proof {
        assert(containers_view(sorted@) =~= before.insert(at as int, added));
    }
}

/// The containers that `summaries` stand for, by name.
fn sort_containers(summaries: Vec<ContainerSummary>) -> (r: Vec<Container>)
    ensures
        containers_view(r@) == container_list(summaries@),
{
    let ghost all = summaries@;
    let ghost leq = name_leq();
    let mut out: Vec<Container> = Vec::new();
    proof {
        assert(summary_containers(all.take(0)) =~= Seq::<ContainerView>::empty());
        assert(containers_view(out@) =~= Seq::<ContainerView>::empty());
    }
    for summary in it: summaries
        invariant
            it.seq() == all,
            is_stable_sort(
                summary_containers(all.take(it.index() as int)),
                containers_view(out@),
                name_leq(),
            ),
    {
        let ghost i = it.index() as int;
        proof {
            assert(all.take(i + 1).drop_last() =~= all.take(i));
            assert(all.take(i + 1).last() == all[i]);
            assert(summary == all[i]);
            assert(summary_containers(all.take(i + 1)) == match summary_container(summary) {
                Some(container) => summary_containers(all.take(i)).push(container),
                None => summary_containers(all.take(i)),
            });
        }
        match Container::from_summary(summary) {
            Some(container) => insert_by_name(
                &mut out,
                container,
                Ghost(summary_containers(all.take(i))),
            ),
            None => {},
        }
    }
    proof {
        assert(all.take(all.len() as int) =~= all);
        lemma_name_leq_total();
        lemma_stable_sort_exists(summary_containers(all), leq);
        lemma_stable_sort_unique(
            summary_containers(all),
            containers_view(out@),
            container_list(all),
            leq,
        );
    }
    out
}

/// Reads the daemon's reply to the question for all containers. They come out by name:
/// the daemon's order, newest first, would move rows under the cursor at every poll.
pub fn list_containers(reply: Result<Vec<ContainerSummary>, DockerError>) -> (r: Result<
    Vec<Container>,
    String,
>)
    ensures
        match (reply, r) {
            (Ok(summaries), Ok(containers)) => containers_view(containers@) == container_list(
                summaries@,
            ),
            (Err(err), Err(reason)) => reason@ == short_text(err),
            _ => false,
        },
{
    match reply {
        Ok(summaries) => Ok(sort_containers(summaries)),
        Err(err) => Err(short_reason(&err)),
    }
}

/// The list holds the container of every summary that has one, each as often, by name,
/// and those of the same name in the daemon's order.
pub proof fn container_list_is_sorted_and_complete(summaries: Seq<ContainerSummary>)
    ensures
        in_order(container_list(summaries), name_leq()),
        container_list(summaries).to_multiset() == summary_containers(summaries).to_multiset(),
        is_stable_sort(summary_containers(summaries), container_list(summaries), name_leq()),
{
    lemma_name_leq_total();
    lemma_stable_sort_exists(summary_containers(summaries), name_leq());
    lemma_stable_sort_permutes(
        summary_containers(summaries),
        container_list(summaries),
        name_leq(),
    );
}

/// Reads the daemon's reply to an action on a container.
pub fn acted(reply: Result<(), DockerError>) -> (r: Result<(), String>)
    ensures
        match (reply, r) {
            (Ok(_), Ok(_)) => true,
            (Err(err), Err(reason)) => reason@ == short_text(err),
            _ => false,
        },
{
    match reply {
        Ok(()) => Ok(()),
        Err(err) => Err(short_reason(&err)),
    }
}

/// Reads the daemon's reply to an inspection.
pub fn inspect(reply: Result<ContainerInspectResponse, DockerError>) -> (r: Result<
    ContainerDetail,
    String,
>)
    ensures
        match (reply, r) {
            (Ok(resp), Ok(detail)) => detail@ == inspect_detail(resp),
            (Err(err), Err(reason)) => reason@ == short_text(err),
            _ => false,
        },
{
    match reply {
        Ok(resp) => Ok(ContainerDetail::from_inspect(resp)),
        Err(err) => Err(short_reason(&err)),
    }
}

/// Reads one item of the stream of statistics. An incomplete frame gives nothing, such as
/// the first one, which has no reading before it: only real samples are ever drawn.
pub fn stats(item: Result<ContainerStatsResponse, DockerError>) -> (r: Option<
    Result<Stats, String>,
>)
    ensures
        match item {
            Ok(resp) => match (stats_sample(resp), r) {
                (Some(sample), Some(Ok(stats))) => stats == sample,
                (None, None) => true,
                _ => false,
            },
            Err(err) => match r {
                Some(Err(reason)) => reason@ == short_text(err),
                _ => false,
            },
        },
{
    match item {
        Ok(resp) => match Stats::from_response(resp) {
            Some(sample) => Some(Ok(sample)),
            None => None,
        },
        Err(err) => Some(Err(short_reason(&err))),
    }
}

/// Reads one item of the stream of logs: a chunk of text, which is not necessarily a
/// whole line.
pub fn logs(item: Result<Vec<u8>, DockerError>) -> (r: Result<String, String>)
    ensures
        match (item, r) {
            (Ok(bytes), Ok(chunk)) => chunk@ == shown(bytes@),
            (Err(err), Err(reason)) => reason@ == short_text(err),
            _ => false,
        },
{
    match item {
        Ok(bytes) => Ok(show_bytes(&bytes)),
        Err(err) => Err(short_reason(&err)),
    }
}

// ---------------------------------------------------------------------------
// What holds of searching, connecting and reading.
// ---------------------------------------------------------------------------
/// `DOCKER_HOST` counts as set exactly if it holds something, and then it holds that.
pub proof fn only_an_empty_host_is_unset(value: Option<Seq<char>>)
    ensures
        set_host(value) is Some <==> value is Some && value->0.len() > 0,
        set_host(value) is Some ==> set_host(value) == value,
{
}

/// Wherever the preference is not Podman and `DOCKER_HOST` is set, the search ends at that
/// very value, whatever the candidates are and whichever of them exist.
pub proof fn docker_host_comes_first(
    pref: RuntimePreference,
    host: Seq<char>,
    candidates: Seq<CandidateView>,
    present: Seq<bool>,
)
    requires
        pref != RuntimePreference::Podman,
    ensures
        resolved(pref, Some(host), candidates, present) == Ok::<EndpointView, Seq<char>>(
            EndpointView::DockerHost(host),
        ),
        connecting(pref, Some(host), candidates, present)
            == (ConnectStepView::BuildFromEnvironment { host }),
{
}

/// A search that does not end at `DOCKER_HOST` ends at the candidate `k` exactly if that
/// exists, is of the wanted runtime, and none before it is both.
pub proof fn search_ends_at_the_first_that_exists(
    pref: RuntimePreference,
    host: Option<Seq<char>>,
    candidates: Seq<CandidateView>,
    present: Seq<bool>,
    k: int,
)
    requires
        host is None || pref == RuntimePreference::Podman,
        0 <= k < candidates.len() == present.len(),
        present[k],
        pref == RuntimePreference::Docker ==> candidates[k].runtime == Runtime::Docker,
        pref == RuntimePreference::Podman ==> candidates[k].runtime == Runtime::Podman,
        forall|j: int|
            #![trigger candidates[j]]
            0 <= j < k ==> !present[j] || (pref == RuntimePreference::Docker
                && candidates[j].runtime == Runtime::Podman) || (pref == RuntimePreference::Podman
                && candidates[j].runtime == Runtime::Docker),
    ensures
        resolved(pref, host, candidates, present) == Ok::<EndpointView, Seq<char>>(
            EndpointView::Socket(candidates[k]),
        ),
{
    lemma_first_usable(pref, candidates, present, 0);
    let i = first_usable(pref, candidates, present, 0);
    assert(usable(pref, candidates, present, k));
    if i < k {
        assert(usable(pref, candidates, present, i));
        let _ = candidates[i];
    }
}

/// A search fails where no candidate of the wanted runtime exists, and the message names
/// the variable only where it would have counted.
pub proof fn search_fails_where_nothing_exists(
    pref: RuntimePreference,
    host: Option<Seq<char>>,
    candidates: Seq<CandidateView>,
    present: Seq<bool>,
)
    requires
        host is None || pref == RuntimePreference::Podman,
        candidates.len() == present.len(),
        forall|j: int|
            #![trigger candidates[j]]
            0 <= j < candidates.len() ==> !present[j] || (pref == RuntimePreference::Docker
                && candidates[j].runtime == Runtime::Podman) || (pref == RuntimePreference::Podman
                && candidates[j].runtime == Runtime::Docker),
    ensures
        resolved(pref, host, candidates, present) == Err::<EndpointView, Seq<char>>(
            not_found_text(pref, candidates),
        ),
{
    lemma_first_usable(pref, candidates, present, 0);
    let i = first_usable(pref, candidates, present, 0);
    if i < candidates.len() {
        assert(usable(pref, candidates, present, i));
        let _ = candidates[i];
    }
}

/// Both parts of a text that is put together of two stand in it.
proof fn lemma_holds_parts(a: Seq<char>, b: Seq<char>, part: Seq<char>)
    ensures
        contains_text(a, part) || contains_text(b, part) ==> contains_text(a + b, part),
{
    lemma_occurs_in_sum(a, b);
    if contains_text(a, part) {
        let i = choose|i: int| occurs_at(a, part, i);
        lemma_occurs_within(a + b, a, part, 0, i);
    }
    if contains_text(b, part) {
        let i = choose|i: int| occurs_at(b, part, i);
        lemma_occurs_within(a + b, b, part, a.len() as int, i);
    }
}

/// The message for a search that found nothing says how to get Docker wherever Docker
/// would do, and how to get Podman wherever Podman would.
pub proof fn not_found_text_says_how_to_get_it(
    pref: RuntimePreference,
    candidates: Seq<CandidateView>,
)
    ensures
        pref != RuntimePreference::Podman ==> contains_text(
            not_found_text(pref, candidates),
            "sudo systemctl enable --now docker.socket"@,
        ),
        pref != RuntimePreference::Docker ==> contains_text(
            not_found_text(pref, candidates),
            "systemctl --user enable --now podman.socket"@,
        ),
        pref != RuntimePreference::Podman ==> contains_text(
            not_found_text(pref, candidates),
            "$DOCKER_HOST"@,
        ),
{
    let docker = "sudo systemctl enable --now docker.socket"@;
    let podman = "systemctl --user enable --now podman.socket"@;
    let variable = "$DOCKER_HOST"@;
    reveal_strlit("sudo systemctl enable --now docker.socket");
    reveal_strlit("systemctl --user enable --now podman.socket");
    reveal_strlit("$DOCKER_HOST");
    reveal_strlit("$DOCKER_HOST and ");
    reveal_strlit("    sudo systemctl enable --now docker.socket");
    reveal_strlit("    systemctl --user enable --now podman.socket");
    reveal_strlit(
        "    sudo systemctl enable --now docker.socket\nor:\n    systemctl --user enable --now podman.socket",
    );
    let how = remedy(pref);
    let opening = "No "@ + wanted(pref) + " socket found. Checked "@;
    let note = if pref != RuntimePreference::Podman {
        "$DOCKER_HOST and "@
    } else {
        ""@
    };
    let list = joined(checked_lines(pref, candidates), "\n"@);
    let ask = "\n\nIs it installed and running? Try:\n"@;
    if pref != RuntimePreference::Podman {
        assert(how.subrange(4, (4 + docker.len()) as int) =~= docker);
        assert(occurs_at(how, docker, 4));
        assert(note.subrange(0, variable.len() as int) =~= variable);
        assert(occurs_at(note, variable, 0));
        lemma_holds_parts(opening, note, variable);
        lemma_holds_parts(opening + note, ":\n"@, variable);
        lemma_holds_parts(opening + note + ":\n"@, list, variable);
        lemma_holds_parts(opening + note + ":\n"@ + list, ask, variable);
        lemma_holds_parts(opening + note + ":\n"@ + list + ask, how, variable);
    }
    if pref != RuntimePreference::Docker {
        let at = how.len() - podman.len();
        assert(how.subrange(at, at + podman.len()) =~= podman);
        assert(occurs_at(how, podman, at));
    }
    let head = opening + note + ":\n"@ + list + ask;
    lemma_holds_parts(head, how, docker);
    lemma_holds_parts(head, how, podman);
}

/// The runtimes on offer stand in the order in which they were found: `DOCKER_HOST` first,
/// and a further candidate only ever adds its own behind them.
pub proof fn offered_runtimes_stand_as_found(
    host_set: bool,
    candidates: Seq<CandidateView>,
    present: Seq<bool>,
    more: CandidateView,
)
    ensures
        host_set ==> offered_runtimes(host_set, candidates, present).len() > 0 && offered_runtimes(
            host_set,
            candidates,
            present,
        )[0] == Runtime::Docker,
        ({
            let before = offered_runtimes(host_set, candidates, present);
            let after = offered_runtimes(host_set, candidates.push(more), present);
            after == before || after == before.push(more.runtime)
        }),
    decreases candidates.len(),
{
    assert(candidates.push(more).drop_last() =~= candidates);
    if candidates.len() > 0 {
        offered_runtimes_stand_as_found(host_set, candidates.drop_last(), present, more);
    }
}

/// A path under a directory is the directory, one slash, and the leaf; a slash that the
/// directory ends in already is that one.
pub proof fn paths_are_joined_by_one_slash(dir: Seq<u8>, leaf: Seq<u8>)
    ensures
        dir.len() > 0 && dir.last() != 47 ==> path_under(dir, leaf) == dir + seq![47u8] + leaf,
        dir.len() > 0 && dir.last() != 47 ==> path_under(dir + seq![47u8], leaf) == dir + seq![47u8]
            + leaf,
        path_under(Seq::empty(), leaf) == leaf,
{
    assert(dir.push(47) =~= dir + seq![47u8]);
    assert(Seq::<u8>::empty() + leaf =~= leaf);
}

/// The system's sockets are looked for in any case; a runtime directory adds the user's
/// own, each in front of the system's of its runtime and under that directory.
pub proof fn runtime_directory_adds_the_users_sockets(dir: Seq<u8>)
    requires
        dir.len() > 0,
        dir.last() != 47,
    ensures
        ({
            let all = candidate_list(Some(dir));
            let system = candidate_list(None);
            &&& system.len() == 2
            &&& system[0].path == encode_utf8("/var/run/docker.sock"@)
            &&& system[1].path == encode_utf8("/run/podman/podman.sock"@)
            &&& system[0].runtime == Runtime::Docker && system[1].runtime == Runtime::Podman
            &&& all.len() == 4
            &&& all[1] == system[0] && all[3] == system[1]
            &&& all[0].runtime == Runtime::Docker && all[2].runtime == Runtime::Podman
            &&& all[0].rootless && all[2].rootless && !all[1].rootless && !all[3].rootless
            &&& all[0].path == dir + seq![47u8] + encode_utf8("docker.sock"@)
            &&& all[2].path == dir + seq![47u8] + encode_utf8("podman"@) + seq![47u8]
                + encode_utf8("podman.sock"@)
        }),
{
    let podman = encode_utf8("podman"@);
    reveal_strlit("podman");
    assert(is_ascii_chars("podman"@));
    is_ascii_chars_encode_utf8("podman"@);
    assert(podman.len() == 6);
    assert(podman[5] == "podman"@[5] as u8);
    let inner = dir.push(47) + podman;
    assert(inner.last() == podman[5]);
    assert(dir.push(47) =~= dir + seq![47u8]);
    assert(inner.push(47) =~= dir + seq![47u8] + podman + seq![47u8]);
}

/// Whatever the runtime directory, empty or ending in a slash, the same four sockets are
/// looked for, the user's own under it.
pub proof fn every_directory_holds_the_users_sockets(dir: Seq<u8>)
    ensures
        ({
            let all = candidate_list(Some(dir));
            &&& all.len() == 4
            &&& all[0].path == path_under(dir, encode_utf8("docker.sock"@))
            &&& all[2].path == path_under(
                path_under(dir, encode_utf8("podman"@)),
                encode_utf8("podman.sock"@),
            )
            &&& seq![all[1], all[3]] == candidate_list(None)
            &&& all[0].runtime == Runtime::Docker && all[0].rootless
            &&& all[2].runtime == Runtime::Podman && all[2].rootless
        }),
{
    let all = candidate_list(Some(dir));
    assert(seq![all[1], all[3]] =~= candidate_list(None));
}

/// Where a command concerns the user's own daemon it is run for the user, and where it
/// changes the system's it is run with sudo; it names the runtime's own unit.
pub proof fn commands_fit_runtime_and_scope(rootless: bool)
    ensures
        ({
            let scope = if rootless {
                "    systemctl --user"@
            } else {
                "    sudo systemctl"@
            };
            &&& start_command(Runtime::Docker, rootless) == scope + " start docker.socket"@
            &&& start_command(Runtime::Podman, rootless) == scope + " enable --now podman.socket"@
            &&& status_command(Runtime::Podman, rootless) == scope + " status podman.socket"@
            &&& rootless ==> status_command(Runtime::Docker, rootless) == scope + " status docker"@
            &&& !rootless ==> status_command(Runtime::Docker, rootless)
                == "    systemctl"@ + " status docker"@
        }),
{
    reveal_strlit("    systemctl --user");
    reveal_strlit("    sudo systemctl");
    reveal_strlit("    systemctl");
    reveal_strlit(" start docker.socket");
    reveal_strlit(" enable --now podman.socket");
    reveal_strlit(" status podman.socket");
    reveal_strlit(" status docker");
    reveal_strlit("    systemctl --user status docker");
    reveal_strlit("    systemctl status docker");
    reveal_strlit("    systemctl --user status podman.socket");
    reveal_strlit("    sudo systemctl status podman.socket");
    reveal_strlit("    systemctl --user start docker.socket");
    reveal_strlit("    sudo systemctl start docker.socket");
    reveal_strlit("    systemctl --user enable --now podman.socket");
    reveal_strlit("    sudo systemctl enable --now podman.socket");
    let scope = if rootless {
        "    systemctl --user"@
    } else {
        "    sudo systemctl"@
    };
    assert(start_command(Runtime::Docker, rootless) =~= scope + " start docker.socket"@);
    assert(start_command(Runtime::Podman, rootless) =~= scope + " enable --now podman.socket"@);
    assert(status_command(Runtime::Podman, rootless) =~= scope + " status podman.socket"@);
    if rootless {
        assert(status_command(Runtime::Docker, rootless) =~= scope + " status docker"@);
    } else {
        assert(status_command(Runtime::Docker, rootless) =~= "    systemctl"@ + " status docker"@);
    }
}

/// Whatever is wrong with a socket, the message names its path. It ends with what the
/// system said, or with what to do: ask a daemon that does not answer how it is, start
/// one that does not listen, and get the permission that is missing.
pub proof fn diagnosis_names_the_path_and_what_to_do(candidate: CandidateView, probe: Probe)
    ensures
        ({
            let text = diagnosis(candidate, probe);
            &&& contains_text(text, shown(candidate.path))
            &&& probe matches Probe::Failed(error) ==> ends_with(text, error@)
            &&& probe is Accepted ==> ends_with(
                text,
                status_command(candidate.runtime, candidate.rootless),
            )
            &&& probe is ConnectionRefused ==> ends_with(
                text,
                start_command(candidate.runtime, candidate.rootless),
            )
            &&& probe is ConnectionRefused ==> contains_text(text, runtime_label(candidate.runtime))
            &&& probe is PermissionDenied && candidate.runtime == Runtime::Docker ==> ends_with(
                text,
                "sudo usermod -aG docker $USER"@,
            )
            &&& probe is PermissionDenied && candidate.runtime == Runtime::Podman ==> ends_with(
                text,
                "systemctl --user enable --now podman.socket"@,
            )
        }),
{
    let path = shown(candidate.path);
    let text = diagnosis(candidate, probe);
    match probe {
        Probe::Accepted => {
            let head = "The socket at "@;
            let mid = " accepted a connection, but the daemon didn't respond.\n\nTry:\n"@;
            let tail = status_command(candidate.runtime, candidate.rootless);
            text_holds_what_was_put_in(head, path, mid + tail);
            assert(text =~= head + path + (mid + tail));
            lemma_ends_with(head + path + mid, tail);
        },
        Probe::PermissionDenied => {
            let docker =
                ".\n\nYou're probably not in the `docker` group. Add yourself, then log out and back in:\n    sudo usermod -aG docker $USER"@;
            let podman =
                ".\n\nThat's Podman's system socket, which belongs to root. Rootless Podman is the usual setup:\n    systemctl --user enable --now podman.socket"@;
            let head = "No permission to access "@;
            let tail = if candidate.runtime == Runtime::Docker {
                docker
            } else {
                podman
            };
            text_holds_what_was_put_in(head, path, tail);
            assert(text =~= head + path + tail);
            reveal_strlit("sudo usermod -aG docker $USER");
            reveal_strlit("systemctl --user enable --now podman.socket");
            reveal_strlit(
                ".\n\nYou're probably not in the `docker` group. Add yourself, then log out and back in:\n    sudo usermod -aG docker $USER",
            );
            reveal_strlit(
                ".\n\nThat's Podman's system socket, which belongs to root. Rootless Podman is the usual setup:\n    systemctl --user enable --now podman.socket",
            );
            let what = if candidate.runtime == Runtime::Docker {
                "sudo usermod -aG docker $USER"@
            } else {
                "systemctl --user enable --now podman.socket"@
            };
            assert(tail.skip(tail.len() - what.len()) =~= what);
            assert(text.skip(text.len() - what.len()) =~= tail.skip(tail.len() - what.len()));
        },
        Probe::ConnectionRefused => {
            let head = "Nothing is listening on "@;
            let label = runtime_label(candidate.runtime);
            let mid = " daemon looks stopped. Try:\n"@;
            let tail = start_command(candidate.runtime, candidate.rootless);
            text_holds_what_was_put_in(head, path, ".\n\nThe "@ + label + mid + tail);
            assert(text =~= head + path + (".\n\nThe "@ + label + mid + tail));
            text_holds_what_was_put_in(head + path + ".\n\nThe "@, label, mid + tail);
            assert(text =~= head + path + ".\n\nThe "@ + label + (mid + tail));
            lemma_ends_with(head + path + ".\n\nThe "@ + label + mid, tail);
        },
        Probe::Failed(error) => {
            let head = "Can't connect to "@;
            text_holds_what_was_put_in(head, path, ": "@ + error@);
            assert(text =~= head + path + (": "@ + error@));
            lemma_ends_with(head + path + ": "@, error@);
        },
    }
}

/// Whether `s` ends with `end`.
pub open spec fn ends_with(s: Seq<char>, end: Seq<char>) -> bool {
    s.len() >= end.len() && s.skip(s.len() - end.len()) == end
}

proof fn lemma_ends_with(head: Seq<char>, end: Seq<char>)
    ensures
        ends_with(head + end, end),
{
    assert((head + end).skip(head.len() as int) =~= end);
}

/// The version is the one that the daemon reports at the top; without it, that of the
/// first component that is named after Podman; without that, it is not known.
pub proof fn reported_version_is_found(version: SystemVersion, k: int)
    ensures
        version.version is Some ==> identified(version).1 == version.version->0@,
        version.version is None && version.components is Some && 0 <= k
            < version.components->0@.len() && contains_text(
            version.components->0@[k].name@,
            "Podman"@,
        ) && (forall|j: int|
            0 <= j < k ==> !contains_text(
                (#[trigger] version.components->0@[j]).name@,
                "Podman"@,
            )) ==> identified(version).1 == version.components->0@[k].version@,
        version.version is None && identified(version).0 == Runtime::Docker
            ==> identified(version).1 == "unknown"@,
{
    if version.components is Some {
        let components = version.components->0@;
        if 0 <= k < components.len() && contains_text(components[k].name@, "Podman"@) && (forall|
            j: int,
        |
            0 <= j < k ==> !contains_text((#[trigger] components[j]).name@, "Podman"@)) {
            lemma_first_podman(components, 0, k);
        }
    }
}

proof fn lemma_first_podman(components: Seq<SystemVersionComponents>, from: int, k: int)
    requires
        0 <= from <= k < components.len(),
        contains_text(components[k].name@, "Podman"@),
        forall|j: int|
            from <= j < k ==> !contains_text((#[trigger] components[j]).name@, "Podman"@),
    ensures
        podman_version(components, from) == Some(components[k].version@),
    decreases k - from,
{
    if from < k {
        assert(!contains_text(components[from].name@, "Podman"@));
        lemma_first_podman(components, from + 1, k);
    }
}

/// A client that was built for an endpoint is pinged at that endpoint, and a daemon that
/// answered there is asked for its version; what it reports is the connection. Where it
/// reports nothing, the runtime is the socket's, or Docker behind a host.
pub proof fn connecting_keeps_to_its_endpoint(
    host: Seq<char>,
    candidate: CandidateView,
    path: Seq<char>,
    endpoint: EndpointView,
    reported: SystemVersion,
    error: String,
)
    ensures
        advanced(ConnectStepView::BuildFromEnvironment { host }, ConnectEvent::Done)
            == (ConnectStepView::Ping { endpoint: EndpointView::DockerHost(host) }),
        advanced(ConnectStepView::BuildForSocket { candidate, path }, ConnectEvent::Done)
            == (ConnectStepView::Ping { endpoint: EndpointView::Socket(candidate) }),
        advanced(ConnectStepView::Ping { endpoint }, ConnectEvent::Done)
            == (ConnectStepView::AskVersion { endpoint }),
        advanced(ConnectStepView::AskVersion { endpoint }, ConnectEvent::Reported(reported)) matches
            ConnectStepView::Connected { runtime, version } && (runtime, version) == identified(
            reported,
        ),
        advanced(
            ConnectStepView::AskVersion { endpoint: EndpointView::Socket(candidate) },
            ConnectEvent::Refused(error),
        ) == (ConnectStepView::Connected { runtime: candidate.runtime, version: "unknown"@ }),
        advanced(
            ConnectStepView::AskVersion { endpoint: EndpointView::DockerHost(host) },
            ConnectEvent::Refused(error),
        ) == (ConnectStepView::Connected { runtime: Runtime::Docker, version: "unknown"@ }),
{
}

/// A step that fails ends in a message that names where it failed and ends with the error;
/// but a socket that does not answer is opened first, and what that shows is explained.
pub proof fn failed_steps_say_where_and_why(
    host: Seq<char>,
    candidate: CandidateView,
    path: Seq<char>,
    error: String,
    probe: Probe,
)
    ensures
        advanced(ConnectStepView::BuildFromEnvironment { host }, ConnectEvent::Refused(error)) matches
            ConnectStepView::Failed { reason } && contains_text(reason, host) && ends_with(
            reason,
            error@,
        ),
        advanced(
            ConnectStepView::BuildForSocket { candidate, path },
            ConnectEvent::Refused(error),
        ) matches ConnectStepView::Failed { reason } && contains_text(reason, path) && ends_with(
            reason,
            error@,
        ),
        advanced(
            ConnectStepView::Ping { endpoint: EndpointView::DockerHost(host) },
            ConnectEvent::Refused(error),
        ) matches ConnectStepView::Failed { reason } && contains_text(reason, host) && ends_with(
            reason,
            error@,
        ),
        advanced(
            ConnectStepView::Ping { endpoint: EndpointView::Socket(candidate) },
            ConnectEvent::Refused(error),
        ) == (ConnectStepView::OpenSocket { candidate }),
        advanced(ConnectStepView::OpenSocket { candidate }, ConnectEvent::Probed(probe))
            == (ConnectStepView::Failed { reason: diagnosis(candidate, probe) }),
{
    let a = "DOCKER_HOST is set to `"@;
    let b = "`, but that isn't usable: "@;
    text_holds_what_was_put_in(a, host, b + error@);
    assert(a + host + b + error@ =~= a + host + (b + error@));
    lemma_ends_with(a + host + b, error@);
    let c = "failed to build a client for "@;
    text_holds_what_was_put_in(c, path, ": "@ + error@);
    assert(c + path + ": "@ + error@ =~= c + path + (": "@ + error@));
    lemma_ends_with(c + path + ": "@, error@);
    let d = "Couldn't reach a container runtime at `"@;
    text_holds_what_was_put_in(d, host, "`: "@ + error@);
    assert(d + host + "`: "@ + error@ =~= d + host + ("`: "@ + error@));
    lemma_ends_with(d + host + "`: "@, error@);
}

/// Connecting over a socket begins with a client for the very path of the socket, where
/// that is text.
pub proof fn connecting_goes_to_the_socket_found(
    pref: RuntimePreference,
    host: Option<Seq<char>>,
    candidates: Seq<CandidateView>,
    present: Seq<bool>,
    candidate: CandidateView,
    path: Seq<char>,
)
    requires
        resolved(pref, host, candidates, present) == Ok::<EndpointView, Seq<char>>(
            EndpointView::Socket(candidate),
        ),
        candidate.path == encode_utf8(path),
    ensures
        connecting(pref, host, candidates, present) == (ConnectStepView::BuildForSocket {
            candidate,
            path,
        }),
{
    encode_utf8_valid_utf8(path);
    encode_utf8_decode_utf8(path);
}

/// A container that is gone is said to be gone, whatever the daemon's message. Any other
/// message of the daemon's shows as it is, unless it quotes an id; a daemon that does not
/// answer has none.
pub proof fn failures_are_shortened(status_code: u16, message: String)
    ensures
        short_text(DockerError::ServerError { status_code: 404, message }) == "it no longer exists"@,
        short_text(DockerError::Other) == "Docker isn't responding"@,
        status_code != 404 && !contains_text(message@, "\": "@) && (message@.len() > 0 ==> '!'
            <= message@[0] <= '~' && '!' <= message@.last() <= '~') ==> short_text(
            DockerError::ServerError { status_code, message },
        ) == message@,
        status_code != 404 ==> short_text(DockerError::ServerError { status_code, message })
            == reason_text(message@),
{
    if message@.len() > 0 {
        plain_characters_are_not_white_space(message@[0]);
        plain_characters_are_not_white_space(message@.last());
    }
    let none = Seq::<char>::empty();
    if message@.len() > 0 && '!' <= message@[0] <= '~' && '!' <= message@.last() <= '~' || message@.len()
        == 0 {
        only_outer_white_space_goes(none, message@, none);
        assert(none + message@ + none =~= message@);
    }
}

/// Of a message `<action> "<id>": <reason>: <remedy>` the reason is kept as it is, for
/// every action, id and remedy, and also where there is no remedy.
pub proof fn reason_stands_between_id_and_remedy(
    action: Seq<char>,
    id: Seq<char>,
    reason: Seq<char>,
    remedy: Seq<char>,
)
    requires
        !action.contains('"'),
        !id.contains('"') && !id.contains(':'),
        id.len() > 0,
        !reason.contains(':'),
        reason.len() > 0 ==> '!' <= reason[0] <= '~' && '!' <= reason.last() <= '~',
    ensures
        reason_text(action + seq!['"'] + id + "\": "@ + reason + (seq![':'] + remedy)) == reason,
        reason_text(action + seq!['"'] + id + "\": "@ + reason) == reason,
{
    lemma_reason_stands(action, id, reason, seq![':'] + remedy);
    lemma_reason_stands(action, id, reason, Seq::empty());
    let whole = action + seq!['"'] + id + "\": "@ + reason;
    assert(whole + Seq::<char>::empty() =~= whole);
}

proof fn lemma_reason_stands(
    action: Seq<char>,
    id: Seq<char>,
    reason: Seq<char>,
    rest: Seq<char>,
)
    requires
        !action.contains('"'),
        !id.contains('"') && !id.contains(':'),
        id.len() > 0,
        !reason.contains(':'),
        reason.len() > 0 ==> '!' <= reason[0] <= '~' && '!' <= reason.last() <= '~',
        rest.len() == 0 || rest[0] == ':',
    ensures
        reason_text(action + seq!['"'] + id + "\": "@ + reason + rest) == reason,
{
    let head = action + seq!['"'] + id;
    let message = head + "\": "@ + reason + rest;
    reveal_strlit("\": ");
    assert forall|i: int| 0 <= i < head.len() implies !occurs_at(message, "\": "@, i) by {
        if occurs_at(message, "\": "@, i) {
            let part = message.subrange(i, i + 3);
            assert(part[0] == '"' && part[1] == ':');
            assert(message[i] == head[i]);
            if i < action.len() {
                assert(head[i] == action[i] && action.contains(action[i]));
            } else if i == action.len() {
                assert(message[i + 1] == id[0]);
                assert(id.contains(id[0]));
            } else {
                let k = i - action.len() - 1;
                assert(head[i] == id[k] && id.contains(id[k]));
            }
        }
    }
    reason_text_is_the_reason(head, reason, rest);
    let none = Seq::<char>::empty();
    if reason.len() > 0 {
        plain_characters_are_not_white_space(reason[0]);
        plain_characters_are_not_white_space(reason.last());
    }
    only_outer_white_space_goes(none, reason, none);
    assert(none + reason + none =~= reason);
}

/// The containers of a list stand by name: where two names first differ, the one with the
/// smaller code point comes first, and a name that ends there before one that goes on.
pub proof fn listed_containers_stand_by_name(
    summaries: Seq<ContainerSummary>,
    i: int,
    j: int,
    common: Seq<char>,
    a: Seq<char>,
    b: Seq<char>,
)
    requires
        0 <= i < j < container_list(summaries).len(),
        container_list(summaries)[i].name == common + a,
        container_list(summaries)[j].name == common + b,
        a.len() > 0 && b.len() > 0 ==> a[0] != b[0],
    ensures
        a.len() == 0 || (b.len() > 0 && a[0] < b[0]),
{
    container_list_is_sorted_and_complete(summaries);
    assert(name_leq()(container_list(summaries)[i], container_list(summaries)[j]));
    first_difference_decides(common, a, b);
}

/// A list holds the container of every summary with an id, and nothing else.
pub proof fn listed_containers_are_those_with_an_id(
    summaries: Seq<ContainerSummary>,
    container: ContainerView,
)
    ensures
        container_list(summaries).contains(container) <==> exists|i: int|
            0 <= i < summaries.len() && (#[trigger] summaries[i]).id is Some && summary_container(
                summaries[i],
            ) == Some(container),
        container_list(summaries).len() == summary_containers(summaries).len(),
        container_list(summaries).len() == with_id(summaries),
{
    broadcast use vstd::seq_lib::group_to_multiset_ensures;

    let all = summary_containers(summaries);
    let list = container_list(summaries);
    container_list_is_sorted_and_complete(summaries);
    lemma_filter_map_holds(
        summaries,
        |summary: ContainerSummary| summary_container(summary),
        container,
    );
    assert(list.contains(container) <==> list.to_multiset().count(container) > 0);
    assert(all.contains(container) <==> all.to_multiset().count(container) > 0);
    assert(list.to_multiset().len() == all.to_multiset().len());
    lemma_with_id(summaries);
}

/// How many summaries have an id.
pub open spec fn with_id(summaries: Seq<ContainerSummary>) -> nat
    decreases summaries.len(),
{
    if summaries.len() == 0 {
        0
    } else {
        with_id(summaries.drop_last()) + if summaries.last().id is Some {
            1nat
        } else {
            0
        }
    }
}

proof fn lemma_with_id(summaries: Seq<ContainerSummary>)
    ensures
        summary_containers(summaries).len() == with_id(summaries),
    decreases summaries.len(),
{
    if summaries.len() > 0 {
        lemma_with_id(summaries.drop_last());
    }
}

/// The message for a search that found nothing begins with what was wanted.
pub proof fn not_found_text_says_what_was_wanted(
    pref: RuntimePreference,
    candidates: Seq<CandidateView>,
)
    ensures
        ({
            let what = if pref == RuntimePreference::Docker {
                "Docker"@
            } else if pref == RuntimePreference::Podman {
                "Podman"@
            } else {
                "container runtime"@
            };
            let begin = "No "@ + what + " socket found. Checked "@;
            let text = not_found_text(pref, candidates);
            text.len() >= begin.len() && text.take(begin.len() as int) == begin
        }),
{
    let begin = "No "@ + wanted(pref) + " socket found. Checked "@;
    assert(not_found_text(pref, candidates).take(begin.len() as int) =~= begin);
}

/// Where nothing was found, or the path of what was found is no text, connecting has
/// failed, and says so.
pub proof fn connecting_fails_without_a_path(
    pref: RuntimePreference,
    host: Option<Seq<char>>,
    candidates: Seq<CandidateView>,
    present: Seq<bool>,
)
    ensures
        resolved(pref, host, candidates, present) matches Err(reason) ==> connecting(
            pref,
            host,
            candidates,
            present,
        ) == (ConnectStepView::Failed { reason }),
        resolved(pref, host, candidates, present) matches Ok(EndpointView::Socket(candidate))
            ==> !valid_utf8(candidate.path) ==> connecting(pref, host, candidates, present)
            == (ConnectStepView::Failed { reason: "socket path isn't valid UTF-8"@ }),
{
}

/// What cannot come of a step does not change it.
pub proof fn unexpected_events_change_nothing(step: ConnectStepView, event: ConnectEvent)
    requires
        step is BuildFromEnvironment || step is BuildForSocket || step is Ping ==> event is Probed
            || event is Reported,
        step is OpenSocket ==> !(event is Probed),
        step is AskVersion ==> event is Done || event is Probed,
    ensures
        advanced(step, event) == step,
{
}

/// A container is asked for its last two hundred lines, and a socket is given two minutes
/// to answer.
pub proof fn logs_begin_two_hundred_lines_back()
    ensures
        LOG_TAIL@ == seq!['2', '0', '0'],
        SOCKET_TIMEOUT_SECS == 120,
{
    reveal_strlit("200");
    assert(LOG_TAIL@ =~= seq!['2', '0', '0']);
}

} // verus!
