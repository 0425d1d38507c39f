//! The API clients of the accounts that jobs read.

use dashmap::DashMap;
use vstd::prelude::*;

use crate::config::GoogleAccountCreds;
use crate::errors::{Failure, PollerError};
use crate::text;
use crate::text::trim;

verus! {

/// The concurrent map of the `dashmap` crate.
#[verifier::external_type_specification]
#[verifier::external_body]
#[verifier::reject_recursive_types(K)]
#[verifier::reject_recursive_types(V)]
#[verifier::reject_recursive_types(S)]
pub struct ExDashMap<K, V, S>(DashMap<K, V, S>);

/// What a map from account ids to client slots holds. The library changes such a
/// map through an exclusive borrow only, so what it holds is part of its value.
pub uninterp spec fn slots_of(map: DashMap<String, usize>) -> Map<Seq<char>, usize>;

/// No slots.
pub open spec fn no_slots() -> Map<Seq<char>, usize> {
    Map::empty()
}

/// Calls `DashMap::new`, which makes a map that holds nothing.
#[verifier::external_body]
fn new_slots() -> (map: DashMap<String, usize>)
    ensures
        slots_of(map) == no_slots(),
{
    DashMap::new()
}

/// Calls `DashMap::get` and copies the slot that it finds: the one that the map
/// holds under the key, if any.
#[verifier::external_body]
fn slot_under(map: &DashMap<String, usize>, key: &str) -> (slot: Option<usize>)
    ensures
        slot == if slots_of(*map).contains_key(key@) {
            Some(slots_of(*map)[key@])
        } else {
            None
        },
{
    map.get(key).map(|found| *found.value())
}

/// Calls `DashMap::insert`: the map then holds the slot under the key, in place
/// of any other, and the rest as before. The map is borrowed exclusively, so
/// nothing else changes it meanwhile.
#[verifier::external_body]
fn put_slot(map: &mut DashMap<String, usize>, key: String, slot: usize)
    ensures
        slots_of(*final(map)) == slots_of(*old(map)).insert(key@, slot),
{
    map.insert(key, slot);
}

/// Whether a path is a name alone on every system: not empty, and without the
/// characters that separate directories or end a drive's letter on any of them.
pub open spec fn is_bare_name(path: Seq<char>) -> bool {
    path.len() > 0 && !path.contains('/') && !path.contains('\\') && !path.contains(':')
}

/// Whether a character separates directories on some system.
pub open spec fn is_separator(ch: char) -> bool {
    ch == '/' || ch == '\\'
}

/// Whether a path ends in a name on every system: neither in a separator, nor in
/// a drive's letter, nor in a dot that may stand for the directory itself, and
/// without the two separators that a server's name or a device's starts with.
pub open spec fn ends_in_name(path: Seq<char>) -> bool {
    &&& path.len() > 0
    &&& !is_separator(path.last()) && path.last() != ':' && path.last() != '.'
    &&& !(path.len() > 1 && is_separator(path[0]) && is_separator(path[1]))
}

/// Whether `dir` can be the directory of a path: the empty path has none, a name
/// alone has the empty one, a path that ends in a name has one, and a directory
/// is what the path starts with, less than the whole of it. Beyond that it
/// depends on the system.
pub open spec fn can_be_parent(path: Seq<char>, dir: Option<Seq<char>>) -> bool {
    &&& path.len() == 0 ==> dir is None
    &&& is_bare_name(path) ==> dir == Some(Seq::<char>::empty())
    &&& ends_in_name(path) ==> dir is Some
    &&& dir matches Some(d) ==> d.len() < path.len() && d == path.take(d.len() as int)
}

/// Calls `std::path::Path::parent` and keeps the text of the directory. The result
/// can be the parent of the path, by `can_be_parent`; which one it is depends on
/// the system.
#[verifier::external_body]
fn parent_dir(path: &str) -> (dir: Option<String>)
    ensures
        can_be_parent(path@, text::optional(dir)),
{
    std::path::Path::new(path).parent().map(|dir| dir.to_string_lossy().into_owned())
}

/// Remembers the client of every account that was opened once. The clients
/// themselves are kept by the host program, which gives each a slot.
pub struct GmailHandler {
    clients: DashMap<String, usize>,
}

/// What a client is made with.
#[derive(Debug)]
pub struct AuthSetup {
    pub client_id: String,
    pub client_secret: String,
    pub scopes: Vec<String>,
    pub token_file: String,
    pub redirect_port: u16,
    pub workspace: String,
    pub client_id_path: String,
    pub client_secret_path: String,
}

/// What is to be done next to get an account's client.
#[derive(Debug)]
pub enum ClientStep {
    /// The client in this slot is to be used.
    Use(usize),
    /// The file with the client id is to be read.
    ReadClientId(String),
    /// The file with the client secret is to be read.
    ReadClientSecret(String),
    /// A client is to be made and its tokens loaded.
    Open(AuthSetup),
    /// There is no client.
    Fail(PollerError),
}

/// The view of an [`AuthSetup`].
pub struct Setup {
    pub client_id: Seq<char>,
    pub client_secret: Seq<char>,
    pub scopes: Seq<Seq<char>>,
    pub token_file: Seq<char>,
    pub redirect_port: u16,
    pub workspace: Seq<char>,
    pub client_id_path: Seq<char>,
    pub client_secret_path: Seq<char>,
}

/// The view of a [`ClientStep`].
pub enum Step {
    Use(usize),
    ReadClientId(Seq<char>),
    ReadClientSecret(Seq<char>),
    Open(Setup),
    Fail(Failure),
}

impl View for AuthSetup {
    type V = Setup;

    open spec fn view(&self) -> Setup {
        Setup {
            client_id: self.client_id@,
            client_secret: self.client_secret@,
            scopes: text::texts(self.scopes@),
            token_file: self.token_file@,
            redirect_port: self.redirect_port,
            workspace: self.workspace@,
            client_id_path: self.client_id_path@,
            client_secret_path: self.client_secret_path@,
        }
    }
}

impl View for ClientStep {
    type V = Step;

    open spec fn view(&self) -> Step {
        match self {
            ClientStep::Use(slot) => Step::Use(*slot),
            ClientStep::ReadClientId(path) => Step::ReadClientId(path@),
            ClientStep::ReadClientSecret(path) => Step::ReadClientSecret(path@),
            ClientStep::Open(setup) => Step::Open(setup@),
            ClientStep::Fail(e) => Step::Fail(e@),
        }
    }
}

impl View for GmailHandler {
    type V = Map<Seq<char>, usize>;

    closed spec fn view(&self) -> Map<Seq<char>, usize> {
        slots_of(self.clients)
    }
}

/// How the search for an account's client starts: with the one that is
/// remembered, else with the files that hold its secrets.
pub open spec fn begun(slots: Map<Seq<char>, usize>, cred: GoogleAccountCreds) -> Step {
    if slots.contains_key(cred.account_id@) {
        Step::Use(slots[cred.account_id@])
    } else {
        Step::ReadClientId(cred.client_id_path@)
    }
}

/// What follows reading the client id.
pub open spec fn after_client_id(cred: GoogleAccountCreds, read: bool) -> Step {
    if read {
        Step::ReadClientSecret(cred.client_secret_path@)
    } else {
        Step::Fail(Failure::Transient("read client_id_path"@))
    }
}

/// What a client is made with: the secrets without the white space around them,
/// and the directory of the token file, or the current one where it has none.
pub open spec fn setup_of(
    cred: GoogleAccountCreds,
    client_id: Seq<char>,
    client_secret: Seq<char>,
    token_dir: Option<Seq<char>>,
) -> Setup {
    Setup {
        client_id: text::trimmed(client_id),
        client_secret: text::trimmed(client_secret),
        scopes: text::texts(cred.scopes@),
        token_file: cred.token_path@,
        redirect_port: 0,
        workspace: match token_dir {
            Some(dir) => dir,
            None => "."@,
        },
        client_id_path: cred.client_id_path@,
        client_secret_path: cred.client_secret_path@,
    }
}

/// What follows reading the client secret.
pub open spec fn after_client_secret(
    cred: GoogleAccountCreds,
    client_id: Seq<char>,
    client_secret: Option<Seq<char>>,
    token_dir: Option<Seq<char>>,
) -> Step {
    match client_secret {
        Some(secret) => Step::Open(setup_of(cred, client_id, secret, token_dir)),
        None => Step::Fail(Failure::Transient("read client_secret_path"@)),
    }
}

/// Whether a step is one that follows reading the client secret, for what can be
/// the directory of the token file.
pub open spec fn follows_client_secret(
    cred: GoogleAccountCreds,
    client_id: Seq<char>,
    client_secret: Option<Seq<char>>,
    step: Step,
) -> bool {
    exists|token_dir: Option<Seq<char>>|
        can_be_parent(cred.token_path@, token_dir) && step == #[trigger] after_client_secret(
            cred,
            client_id,
            client_secret,
            token_dir,
        )
}

/// What is remembered once a client was opened.
pub open spec fn kept(
    slots: Map<Seq<char>, usize>,
    cred: GoogleAccountCreds,
    opened: Option<usize>,
) -> Map<Seq<char>, usize> {
    match opened {
        Some(slot) => slots.insert(cred.account_id@, slot),
        None => slots,
    }
}

/// What follows opening a client.
pub open spec fn after_opening(opened: Option<usize>) -> Step {
    match opened {
        Some(slot) => Step::Use(slot),
        None => Step::Fail(Failure::Permanent("gmail: load_from_disk"@)),
    }
}

impl GmailHandler {
    /// A handler that remembers no client.
    pub fn new() -> (handler: GmailHandler)
        ensures
            handler@ == no_slots(),
    {
        GmailHandler { clients: new_slots() }
    }

    /// Starts the search for an account's client.
    pub fn begin_client(&self, cred: &GoogleAccountCreds) -> (step: ClientStep)
        ensures
            step@ == begun(self@, *cred),
    {
        match slot_under(&self.clients, cred.account_id.as_str()) {
            Some(slot) => ClientStep::Use(slot),
            None => ClientStep::ReadClientId(cred.client_id_path.clone()),
        }
    }

    /// Goes on when the file with the client id was read, or could not be.
    pub fn client_id_read(cred: &GoogleAccountCreds, read: bool) -> (step: ClientStep)
        ensures
            step@ == after_client_id(*cred, read),
    {
        if read {
            ClientStep::ReadClientSecret(cred.client_secret_path.clone())
        } else {
            ClientStep::Fail(PollerError::Transient("read client_id_path".to_owned()))
        }
    }

    /// Goes on when the file with the client secret was read, or could not be.
    pub fn client_secret_read(
        cred: &GoogleAccountCreds,
        client_id: &str,
        client_secret: &Option<String>,
    ) -> (step: ClientStep)
        ensures
            follows_client_secret(*cred, client_id@, text::optional(*client_secret), step@),
    {
        let token_dir = parent_dir(cred.token_path.as_str());
        Self::client_secret_read_in(cred, client_id, client_secret, token_dir)
    }

    /// Goes on when the file with the client secret was read, or could not be.
    /// `token_dir` is the directory of the token file.
    pub fn client_secret_read_in(
        cred: &GoogleAccountCreds,
        client_id: &str,
        client_secret: &Option<String>,
        token_dir: Option<String>,
    ) -> (step: ClientStep)
        ensures
            step@ == after_client_secret(
                *cred,
                client_id@,
                text::optional(*client_secret),
                text::optional(token_dir),
            ),
    {
        match client_secret {
            Some(secret) => {
                let workspace = match token_dir {
                    Some(dir) => dir,
                    None => ".".to_owned(),
                };
                let scopes = cred.scopes.clone();
                assert(text::texts(scopes@) =~= text::texts(cred.scopes@));
                ClientStep::Open(
                    AuthSetup {
                        client_id: trim(client_id),
                        client_secret: trim(secret.as_str()),
                        scopes,
                        token_file: cred.token_path.clone(),
                        redirect_port: 0,
                        workspace,
                        client_id_path: cred.client_id_path.clone(),
                        client_secret_path: cred.client_secret_path.clone(),
                    },
                )
            },
            None => ClientStep::Fail(PollerError::Transient("read client_secret_path".to_owned())),
        }
    }

    /// Goes on when a client was opened in a slot, or could not be.
    pub fn client_opened(&mut self, cred: &GoogleAccountCreds, opened: Option<usize>) -> (step:
        ClientStep)
        ensures
            final(self)@ == kept(old(self)@, *cred, opened),
            step@ == after_opening(opened),
    {
        match opened {
            Some(slot) => {
                put_slot(&mut self.clients, cred.account_id.clone(), slot);
                ClientStep::Use(slot)
            },
            None => ClientStep::Fail(PollerError::Permanent("gmail: load_from_disk".to_owned())),
        }
    }
}

impl Default for GmailHandler {
    fn default() -> (handler: GmailHandler)
        ensures
            handler@ == no_slots(),
    {
        GmailHandler::new()
    }
}

/// A client that was opened is used from then on, and no secret is read again;
/// other accounts go on as before.
pub proof fn lemma_opened_client_is_reused(
    slots: Map<Seq<char>, usize>,
    cred: GoogleAccountCreds,
    slot: usize,
    later: GoogleAccountCreds,
)
    ensures
        begun(kept(slots, cred, Some(slot)), later) == if later.account_id@ == cred.account_id@ {
            Step::Use(slot)
        } else {
            begun(slots, later)
        },
{
}

/// A client that could not be opened leaves nothing behind.
pub proof fn lemma_failed_client_is_forgotten(
    slots: Map<Seq<char>, usize>,
    cred: GoogleAccountCreds,
    later: GoogleAccountCreds,
)
    ensures
        begun(kept(slots, cred, None), later) == begun(slots, later),
{
}

/// A client that is not remembered is made from the two files that the account
/// names, the client id first; one that cannot be read fails the tick for now.
pub proof fn lemma_secrets_are_read_in_turn(
    slots: Map<Seq<char>, usize>,
    cred: GoogleAccountCreds,
)
    requires
        !slots.contains_key(cred.account_id@),
    ensures
        begun(slots, cred) == Step::ReadClientId(cred.client_id_path@),
        after_client_id(cred, true) == Step::ReadClientSecret(cred.client_secret_path@),
        after_client_id(cred, false) matches Step::Fail(Failure::Transient(_)),
        forall|id: Seq<char>, dir: Option<Seq<char>>|
            #[trigger] after_client_secret(cred, id, None, dir) matches Step::Fail(
                Failure::Transient(_),
            ),
{
}

/// A client is made with the two secrets, each without the white space around it,
/// with what the account says, and in the directory of its token file, or the
/// current one where that has none.
pub proof fn lemma_client_is_made_as_the_account_says(
    cred: GoogleAccountCreds,
    before: Seq<char>,
    id: Seq<char>,
    secret: Seq<char>,
    behind: Seq<char>,
    dir: Option<Seq<char>>,
)
    requires
        forall|k: int| 0 <= k < before.len() ==> text::white_space(#[trigger] before[k]),
        forall|k: int| 0 <= k < behind.len() ==> text::white_space(#[trigger] behind[k]),
        id.len() > 0 ==> !text::white_space(id[0]) && !text::white_space(id.last()),
        secret.len() > 0 ==> !text::white_space(secret[0]) && !text::white_space(secret.last()),
    ensures
        after_client_secret(cred, before + id + behind, Some(before + secret + behind), dir)
            matches Step::Open(setup) && {
            &&& setup.client_id == id
            &&& setup.client_secret == secret
            &&& setup.scopes == text::texts(cred.scopes@)
            &&& setup.token_file == cred.token_path@
            &&& setup.redirect_port == 0
            &&& setup.client_id_path == cred.client_id_path@
            &&& setup.client_secret_path == cred.client_secret_path@
            &&& match dir {
                Some(d) => setup.workspace == d,
                None => setup.workspace == "."@,
            }
        },
{
    text::lemma_trim_leaves_the_middle(before, id, behind);
    text::lemma_trim_leaves_the_middle(before, secret, behind);
}

/// A client that was opened is used; one that could not be is given up for good.
pub proof fn lemma_opened_client_is_used(slot: usize)
    ensures
        after_opening(Some(slot)) == Step::Use(slot),
        after_opening(None) matches Step::Fail(Failure::Permanent(_)),
{
}

} // verus!
