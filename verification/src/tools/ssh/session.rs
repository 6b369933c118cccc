//! SSH sessions: which host key is trusted, how a user authenticates, and what a
//! remote command printed.

use vstd::prelude::*;

use crate::config::model::{SshServerConfig, SshServerConfigView};
use crate::error::{ToolError, ToolErrorView};
use crate::text::{
    cat2, cat3, cat4, cat5, decimal, decimal_text, opt_view, same,
};
use crate::tools::eval::{lossy_text, read_lossy};

verus! {

// ---------------------------------------------------------------------------
// Host keys

/// Key verification result during handshake.
#[derive(Debug, Clone)]
pub enum KeyVerification {
    Trusted,
    NewPinned(String),
    Mismatch { pinned: String, received: String },
}

/// What a [`KeyVerification`] says.
pub enum KeyVerificationView {
    Trusted,
    NewPinned(Seq<char>),
    Mismatch { pinned: Seq<char>, received: Seq<char> },
}

impl View for KeyVerification {
    type V = KeyVerificationView;

    open spec fn view(&self) -> KeyVerificationView {
        match self {
            KeyVerification::Trusted => KeyVerificationView::Trusted,
            KeyVerification::NewPinned(key) => KeyVerificationView::NewPinned(key@),
            KeyVerification::Mismatch { pinned, received } => KeyVerificationView::Mismatch {
                pinned: pinned@,
                received: received@,
            },
        }
    }
}

/// What stands for the key in a list of known hosts, in a report of a mismatch.
pub const RECORDED: &'static str = "recorded in ~/.ssh/known_hosts";

/// What is made of the key that a host presents. A fingerprint from the
/// configuration is authoritative; without one, `known` says whether the list of
/// known hosts has this key for the host, another one, or none.
pub open spec fn verified_key(
    pinned: Option<Seq<char>>,
    received: Seq<char>,
    known: Option<bool>,
    save_new: bool,
) -> KeyVerificationView {
    match pinned {
        Some(fingerprint) => if fingerprint == received {
            KeyVerificationView::Trusted
        } else if save_new {
            KeyVerificationView::NewPinned(received)
        } else {
            KeyVerificationView::Mismatch { pinned: fingerprint, received }
        },
        None => match known {
            Some(true) => KeyVerificationView::Trusted,
            Some(false) => if save_new {
                KeyVerificationView::NewPinned(received)
            } else {
                KeyVerificationView::Mismatch { pinned: RECORDED@, received }
            },
            None => KeyVerificationView::NewPinned(received),
        },
    }
}

impl KeyVerificationView {
    /// Whether the connection goes on.
    pub open spec fn accepted(self) -> bool {
        !(self is Mismatch)
    }

    /// Whether the key is to be recorded.
    pub open spec fn learned(self) -> bool {
        self is NewPinned
    }
}

/// Decides on the key that a host presents.
pub fn check_server_key(
    pinned: &Option<String>,
    received: &str,
    known: Option<bool>,
    save_new: bool,
) -> (r: KeyVerification)
    ensures
        r@ == verified_key(opt_view(*pinned), received@, known, save_new),
{
    match pinned {
        Some(fingerprint) => if same(fingerprint, received) {
            KeyVerification::Trusted
        } else if save_new {
            KeyVerification::NewPinned(received.to_owned())
        } else {
            KeyVerification::Mismatch {
                pinned: fingerprint.clone(),
                received: received.to_owned(),
            }
        },
        None => match known {
            Some(true) => KeyVerification::Trusted,
            Some(false) => if save_new {
                KeyVerification::NewPinned(received.to_owned())
            } else {
                KeyVerification::Mismatch {
                    pinned: RECORDED.to_owned(),
                    received: received.to_owned(),
                }
            },
            None => KeyVerification::NewPinned(received.to_owned()),
        },
    }
}

impl KeyVerification {
    /// Whether the connection goes on.
    pub fn accepted(&self) -> (r: bool)
        ensures
            r == self@.accepted(),
    {
        match self {
            KeyVerification::Mismatch { .. } => false,
            _ => true,
        }
    }

    /// Whether the key is to be recorded.
    pub fn learned(&self) -> (r: bool)
        ensures
            r == self@.learned(),
    {
        match self {
            KeyVerification::NewPinned(_) => true,
            _ => false,
        }
    }
}

/// A key that differs from the one that was pinned or recorded is refused unless
/// the caller acknowledged it.
pub proof fn lemma_changed_key_is_refused(
    pinned: Option<Seq<char>>,
    received: Seq<char>,
    known: Option<bool>,
    save_new: bool,
)
    ensures
        !verified_key(pinned, received, known, save_new).accepted() <==> !save_new && match pinned {
            Some(fingerprint) => fingerprint != received,
            None => known == Some(false),
        },
{
}

// ---------------------------------------------------------------------------
// Connecting

/// The address that a server is reached at.
pub open spec fn server_address(config: SshServerConfigView) -> Seq<char> {
    config.host + ":"@ + decimal(config.port as nat)
}

/// The address that a server is reached at.
pub fn address(config: &SshServerConfig) -> (r: String)
    ensures
        r@ == server_address(config@),
{
    cat3(&config.host, ":", &decimal_text(config.port as u64))
}

/// What the caller is told of a host key that changed.
pub open spec fn mismatch_warning(
    config: SshServerConfigView,
    pinned: Seq<char>,
    received: Seq<char>,
) -> Seq<char> {
    "SECURITY WARNING: Host key fingerprint mismatch for server '"@ + config.name + "' ("@
        + server_address(config) + ")! Expected pinned fingerprint '"@ + pinned
        + "', but received '"@ + received
        + "'. Possible host key rotation or Man-in-the-Middle hijacking! If this host key change is expected, retry the call with 'save_new_fingerprint: true' to trust and re-pin the new key."@
}

/// What a connection that failed is reported as: a changed host key before
/// anything else.
pub open spec fn connection_error(
    config: SshServerConfigView,
    verification: Option<KeyVerificationView>,
    reason: Seq<char>,
) -> ToolErrorView {
    match verification {
        Some(KeyVerificationView::Mismatch { pinned, received }) => ToolErrorView::Failed(
            mismatch_warning(config, pinned, received),
        ),
        _ => ToolErrorView::Failed(
            "SSH connection to ["@ + config.name + "] ("@ + server_address(config) + ") failed: "@
                + reason,
        ),
    }
}

/// What a connection that took too long is reported as.
pub open spec fn connection_timeout(config: SshServerConfigView) -> ToolErrorView {
    ToolErrorView::Failed(
        "SSH connection to ["@ + config.name + "] ("@ + server_address(config)
            + ") timed out after 15s"@,
    )
}

/// Reports a connection that failed.
pub fn connection_failed(
    config: &SshServerConfig,
    verification: &Option<KeyVerification>,
    reason: &str,
) -> (r: ToolError)
    ensures
        r@ == connection_error(config@, opt_view(*verification), reason@),
{
    let addr = address(config);
    match verification {
        Some(KeyVerification::Mismatch { pinned, received }) => {
            let mut message = cat5(
                "SECURITY WARNING: Host key fingerprint mismatch for server '",
                &config.name,
                "' (",
                &addr,
                ")! Expected pinned fingerprint '",
            );
            message.append(pinned.as_str());
            message.append("', but received '");
            message.append(received.as_str());
            message.append(
                "'. Possible host key rotation or Man-in-the-Middle hijacking! If this host key change is expected, retry the call with 'save_new_fingerprint: true' to trust and re-pin the new key.",
            );
            ToolError::Failed(message)
        },
        _ => ToolError::Failed(
            cat2(
                &cat5("SSH connection to [", &config.name, "] (", &addr, ") failed: "),
                reason,
            ),
        ),
    }
}

/// Reports a connection that took too long.
pub fn connection_timed_out(config: &SshServerConfig) -> (r: ToolError)
    ensures
        r@ == connection_timeout(config@),
{
    ToolError::Failed(
        cat5(
            "SSH connection to [",
            &config.name,
            "] (",
            &address(config),
            ") timed out after 15s",
        ),
    )
}

/// Whether a session has to be opened: there is none, or it has died.
pub fn needs_connection(alive: Option<bool>) -> (r: bool)
    ensures
        r == (alive != Some(true)),
{
    match alive {
        Some(alive) => !alive,
        None => true,
    }
}

// ---------------------------------------------------------------------------
// Authenticating

/// What is to be done next to authenticate.
pub enum AuthStep {
    /// Offer the key in a file.
    PublicKey { path: String, passphrase: Option<String> },
    /// Offer a password.
    Password(String),
    /// The user is authenticated.
    Done,
    /// Give up.
    Fail(ToolError),
}

/// What an [`AuthStep`] says.
pub enum AuthStepView {
    PublicKey { path: Seq<char>, passphrase: Option<Seq<char>> },
    Password(Seq<char>),
    Done,
    Fail(ToolErrorView),
}

impl View for AuthStep {
    type V = AuthStepView;

    open spec fn view(&self) -> AuthStepView {
        match self {
            AuthStep::PublicKey { path, passphrase } => AuthStepView::PublicKey {
                path: path@,
                passphrase: opt_view(*passphrase),
            },
            AuthStep::Password(password) => AuthStepView::Password(password@),
            AuthStep::Done => AuthStepView::Done,
            AuthStep::Fail(err) => AuthStepView::Fail(err@),
        }
    }
}

/// What came of offering a key.
pub enum KeyOutcome {
    Accepted,
    Rejected,
    /// The exchange failed.
    Broken(String),
    /// The key could not be loaded.
    Unreadable(String),
}

/// What a [`KeyOutcome`] says.
pub enum KeyOutcomeView {
    Accepted,
    Rejected,
    Broken(Seq<char>),
    Unreadable(Seq<char>),
}

impl View for KeyOutcome {
    type V = KeyOutcomeView;

    open spec fn view(&self) -> KeyOutcomeView {
        match self {
            KeyOutcome::Accepted => KeyOutcomeView::Accepted,
            KeyOutcome::Rejected => KeyOutcomeView::Rejected,
            KeyOutcome::Broken(reason) => KeyOutcomeView::Broken(reason@),
            KeyOutcome::Unreadable(reason) => KeyOutcomeView::Unreadable(reason@),
        }
    }
}

/// What came of offering a password.
pub enum PasswordOutcome {
    Accepted,
    Rejected,
    /// The exchange failed.
    Broken(String),
}

/// What a [`PasswordOutcome`] says.
pub enum PasswordOutcomeView {
    Accepted,
    Rejected,
    Broken(Seq<char>),
}

impl View for PasswordOutcome {
    type V = PasswordOutcomeView;

    open spec fn view(&self) -> PasswordOutcomeView {
        match self {
            PasswordOutcome::Accepted => PasswordOutcomeView::Accepted,
            PasswordOutcome::Rejected => PasswordOutcomeView::Rejected,
            PasswordOutcome::Broken(reason) => PasswordOutcomeView::Broken(reason@),
        }
    }
}

/// What is done where no key was accepted: offer the password, where there is
/// one.
pub open spec fn password_step(config: SshServerConfigView) -> AuthStepView {
    match config.password {
        Some(password) => AuthStepView::Password(password),
        None => AuthStepView::Fail(
            ToolErrorView::Denied(
                "no valid authentication succeeded for ["@ + config.name + "] ("@ + config.user
                    + ")"@,
            ),
        ),
    }
}

/// What is done first: offer the key, where there is one.
pub open spec fn first_step(config: SshServerConfigView) -> AuthStepView {
    match config.private_key {
        Some(path) => AuthStepView::PublicKey { path, passphrase: config.passphrase },
        None => password_step(config),
    }
}

/// What is done after a key was offered.
pub open spec fn step_after_key(
    config: SshServerConfigView,
    path: Seq<char>,
    outcome: KeyOutcomeView,
) -> AuthStepView {
    match outcome {
        KeyOutcomeView::Accepted => AuthStepView::Done,
        KeyOutcomeView::Rejected => password_step(config),
        KeyOutcomeView::Broken(reason) => AuthStepView::Fail(
            ToolErrorView::Failed(
                "public key authentication error on ["@ + config.name + "]: "@ + reason,
            ),
        ),
        KeyOutcomeView::Unreadable(reason) => AuthStepView::Fail(
            ToolErrorView::Failed(
                "could not load private key '"@ + path + "' for ["@ + config.name + "]: "@
                    + reason,
            ),
        ),
    }
}

/// What is done after a password was offered.
pub open spec fn step_after_password(
    config: SshServerConfigView,
    outcome: PasswordOutcomeView,
) -> AuthStepView {
    match outcome {
        PasswordOutcomeView::Accepted => AuthStepView::Done,
        PasswordOutcomeView::Rejected => AuthStepView::Fail(
            ToolErrorView::Denied(
                "password authentication failed for user '"@ + config.user + "' on ["@
                    + config.name + "]"@,
            ),
        ),
        PasswordOutcomeView::Broken(reason) => AuthStepView::Fail(
            ToolErrorView::Failed("authentication error on ["@ + config.name + "]: "@ + reason),
        ),
    }
}

fn offer_password(config: &SshServerConfig) -> (r: AuthStep)
    ensures
        r@ == password_step(config@),
{
    match &config.password {
        Some(password) => AuthStep::Password(password.clone()),
        None => AuthStep::Fail(
            ToolError::Denied(
                cat5(
                    "no valid authentication succeeded for [",
                    &config.name,
                    "] (",
                    &config.user,
                    ")",
                ),
            ),
        ),
    }
}

/// Says how authentication starts.
pub fn authenticate(config: &SshServerConfig) -> (r: AuthStep)
    ensures
        r@ == first_step(config@),
{
    match &config.private_key {
        Some(path) => AuthStep::PublicKey {
            path: path.clone(),
            passphrase: match &config.passphrase {
                Some(text) => Some(text.clone()),
                None => None,
            },
        },
        None => offer_password(config),
    }
}

/// Says how authentication goes on after a key was offered.
pub fn after_key(config: &SshServerConfig, path: &str, outcome: KeyOutcome) -> (r: AuthStep)
    ensures
        r@ == step_after_key(config@, path@, outcome@),
{
    match outcome {
        KeyOutcome::Accepted => AuthStep::Done,
        KeyOutcome::Rejected => offer_password(config),
        KeyOutcome::Broken(reason) => AuthStep::Fail(
            ToolError::Failed(
                cat4("public key authentication error on [", &config.name, "]: ", &reason),
            ),
        ),
        KeyOutcome::Unreadable(reason) => AuthStep::Fail(
            ToolError::Failed(
                cat2(
                    &cat5("could not load private key '", path, "' for [", &config.name, "]: "),
                    &reason,
                ),
            ),
        ),
    }
}

/// Says how authentication goes on after a password was offered.
pub fn after_password(config: &SshServerConfig, outcome: PasswordOutcome) -> (r: AuthStep)
    ensures
        r@ == step_after_password(config@, outcome@),
{
    match outcome {
        PasswordOutcome::Accepted => AuthStep::Done,
        PasswordOutcome::Rejected => AuthStep::Fail(
            ToolError::Denied(
                cat5(
                    "password authentication failed for user '",
                    &config.user,
                    "' on [",
                    &config.name,
                    "]",
                ),
            ),
        ),
        PasswordOutcome::Broken(reason) => AuthStep::Fail(
            ToolError::Failed(cat4("authentication error on [", &config.name, "]: ", &reason)),
        ),
    }
}

/// Nobody is let in without an offer that was accepted: authentication ends well
/// only after a key or a password was.
pub proof fn lemma_access_needs_acceptance(
    config: SshServerConfigView,
    path: Seq<char>,
    key: KeyOutcomeView,
    password: PasswordOutcomeView,
)
    ensures
        first_step(config) !is Done,
        password_step(config) !is Done,
        step_after_key(config, path, key) is Done <==> key is Accepted,
        step_after_password(config, password) is Done <==> password is Accepted,
{
}

// ---------------------------------------------------------------------------
// Running a command

/// Something that arrived on the channel of a command.
pub enum ChannelEvent {
    Data(Vec<u8>),
    ExtendedData { data: Vec<u8>, ext: u32 },
    ExitStatus(u32),
    Close,
    Other,
}

/// What a [`ChannelEvent`] says.
pub enum ChannelEventView {
    Data(Seq<u8>),
    ExtendedData { data: Seq<u8>, ext: u32 },
    ExitStatus(u32),
    Close,
    Other,
}

impl View for ChannelEvent {
    type V = ChannelEventView;

    open spec fn view(&self) -> ChannelEventView {
        match self {
            ChannelEvent::Data(data) => ChannelEventView::Data(data@),
            ChannelEvent::ExtendedData { data, ext } => ChannelEventView::ExtendedData {
                data: data@,
                ext: *ext,
            },
            ChannelEvent::ExitStatus(code) => ChannelEventView::ExitStatus(*code),
            ChannelEvent::Close => ChannelEventView::Close,
            ChannelEvent::Other => ChannelEventView::Other,
        }
    }
}

/// What a command has printed so far, and its exit code.
pub struct ExecOutput {
    stdout: Vec<u8>,
    stderr: Vec<u8>,
    exit_code: u32,
}

/// What an [`ExecOutput`] holds.
pub struct ExecOutputView {
    pub stdout: Seq<u8>,
    pub stderr: Seq<u8>,
    pub exit_code: u32,
}

impl View for ExecOutput {
    type V = ExecOutputView;

    closed spec fn view(&self) -> ExecOutputView {
        ExecOutputView {
            stdout: self.stdout@,
            stderr: self.stderr@,
            exit_code: self.exit_code,
        }
    }
}

/// What a command has printed after one more event.
pub open spec fn exec_step(state: ExecOutputView, event: ChannelEventView) -> ExecOutputView {
    match event {
        ChannelEventView::Data(data) => ExecOutputView { stdout: state.stdout + data, ..state },
        ChannelEventView::ExtendedData { data, ext } => if ext == 1 {
            ExecOutputView { stderr: state.stderr + data, ..state }
        } else {
            state
        },
        ChannelEventView::ExitStatus(code) => ExecOutputView { exit_code: code, ..state },
        ChannelEventView::Close => state,
        ChannelEventView::Other => state,
    }
}

impl ExecOutput {
    /// Nothing printed yet.
    pub fn new() -> (r: ExecOutput)
        ensures
            r@ == (ExecOutputView { stdout: seq![], stderr: seq![], exit_code: 0 }),
    {
        ExecOutput { stdout: Vec::new(), stderr: Vec::new(), exit_code: 0 }
    }

    /// Takes in one more event; says whether more are to be waited for.
    pub fn absorb(&mut self, event: ChannelEvent) -> (r: bool)
        ensures
            final(self)@ == exec_step(old(self)@, event@),
            r == !(event@ is Close),
    {
        match event {
            ChannelEvent::Data(mut data) => {
                self.stdout.append(&mut data);
                true
            },
            ChannelEvent::ExtendedData { mut data, ext } => {
                if ext == 1 {
                    self.stderr.append(&mut data);
                }
                true
            },
            ChannelEvent::ExitStatus(code) => {
                self.exit_code = code;
                true
            },
            ChannelEvent::Close => false,
            ChannelEvent::Other => true,
        }
    }

    /// What the command printed, as text, and its exit code.
    pub fn finish(&self) -> (r: (String, String, u32))
        ensures
            r.0@ == lossy_text(self@.stdout),
            r.1@ == lossy_text(self@.stderr),
            r.2 == self@.exit_code,
    {
        (read_lossy(&self.stdout), read_lossy(&self.stderr), self.exit_code)
    }
}

/// A key that is pinned is trusted where it is the one that came, whatever is on
/// record; without a pin the record decides. A key that is new, or whose change is
/// accepted, is pinned as it came, and one that changed is told beside the other.
pub proof fn lemma_keys_are_judged(
    pinned: Option<Seq<char>>,
    received: Seq<char>,
    known: Option<bool>,
    save_new: bool,
)
    ensures
        pinned == Some(received) ==> verified_key(pinned, received, known, save_new) is Trusted,
        pinned is None && known == Some(true) ==> verified_key(
            pinned,
            received,
            known,
            save_new,
        ) is Trusted,
        verified_key(pinned, received, known, save_new) is Trusted ==> pinned == Some(received) || (
        pinned is None && known == Some(true)),
        pinned is None && known is None ==> verified_key(pinned, received, known, save_new)
            == KeyVerificationView::NewPinned(received),
        verified_key(pinned, received, known, save_new) matches KeyVerificationView::NewPinned(key)
            ==> key == received && (save_new || (pinned is None && known is None)),
        verified_key(pinned, received, known, save_new) matches KeyVerificationView::Mismatch {
            pinned: expected,
            received: got,
        } ==> got == received && !save_new && (pinned matches Some(key) ==> expected == key),
        verified_key(pinned, received, known, save_new).learned() ==> verified_key(
            pinned,
            received,
            known,
            save_new,
        ).accepted(),
{
}

/// The address is the host and the port with a colon between them.
pub proof fn lemma_server_address(config: SshServerConfigView)
    ensures
        ({
            let address = server_address(config);
            let n = config.host.len() as int;
            &&& address.len() > n
            &&& address.take(n) == config.host
            &&& address[n] == ':'
            &&& address.skip(n + 1) == decimal(config.port as nat)
        }),
{
    reveal_strlit(":");
    assert(":"@.len() == 1 && ":"@[0] == ':');
    let address = server_address(config);
    let n = config.host.len() as int;
    assert(address.take(n) =~= config.host);
    assert(address.skip(n + 1) =~= decimal(config.port as nat));
}

/// A login begins with the key where there is one, with its passphrase, and goes on to
/// the password where the key is rejected or there is none; a password that is not
/// there, or is rejected, denies the login, and everything else that goes wrong fails
/// it.
pub proof fn lemma_logins(
    config: SshServerConfigView,
    path: Seq<char>,
    key: KeyOutcomeView,
    password: PasswordOutcomeView,
)
    ensures
        config.private_key matches Some(file) ==> first_step(config) == (AuthStepView::PublicKey {
            path: file,
            passphrase: config.passphrase,
        }),
        config.private_key is None ==> first_step(config) == password_step(config),
        config.password matches Some(secret) ==> password_step(config) == AuthStepView::Password(
            secret,
        ),
        config.password is None ==> (password_step(config) matches AuthStepView::Fail(err)
            && err is Denied),
        key is Rejected ==> step_after_key(config, path, key) == password_step(config),
        key is Broken || key is Unreadable ==> (step_after_key(
            config,
            path,
            key,
        ) matches AuthStepView::Fail(err) && err is Failed),
        password is Rejected ==> (step_after_password(
            config,
            password,
        ) matches AuthStepView::Fail(err) && err is Denied),
        password is Broken ==> (step_after_password(config, password) matches AuthStepView::Fail(
            err,
        ) && err is Failed),
{
}

/// The state after a number of events.
pub open spec fn exec_run(state: ExecOutputView, events: Seq<ChannelEventView>) -> ExecOutputView
    decreases events.len(),
{
    if events.len() == 0 {
        state
    } else {
        exec_step(exec_run(state, events.drop_last()), events.last())
    }
}

/// All that the events print to one of the two streams.
pub open spec fn printed(events: Seq<ChannelEventView>, to_stderr: bool) -> Seq<u8>
    decreases events.len(),
{
    if events.len() == 0 {
        seq![]
    } else {
        printed(events.drop_last(), to_stderr) + match events.last() {
            ChannelEventView::Data(data) if !to_stderr => data,
            ChannelEventView::ExtendedData { data, ext } if to_stderr && ext == 1 => data,
            _ => seq![],
        }
    }
}

/// What a command printed is all that its events carried for each stream, in order.
pub proof fn lemma_output_is_collected(state: ExecOutputView, events: Seq<ChannelEventView>)
    ensures
        exec_run(state, events).stdout == state.stdout + printed(events, false),
        exec_run(state, events).stderr == state.stderr + printed(events, true),
    decreases events.len(),
{
    let done = exec_run(state, events);
    if events.len() == 0 {
        assert(state.stdout + printed(events, false) =~= state.stdout);
        assert(state.stderr + printed(events, true) =~= state.stderr);
    } else {
        let front = events.drop_last();
        let before = exec_run(state, front);
        lemma_output_is_collected(state, front);
        assert(done == exec_step(before, events.last()));
        match events.last() {
            ChannelEventView::Data(data) => {
                assert(done.stdout =~= state.stdout + (printed(front, false) + data));
                assert(printed(front, true) + Seq::<u8>::empty() =~= printed(front, true));
            },
            ChannelEventView::ExtendedData { data, ext } => {
                assert(printed(front, false) + Seq::<u8>::empty() =~= printed(front, false));
                if ext == 1 {
                    assert(done.stderr =~= state.stderr + (printed(front, true) + data));
                } else {
                    assert(printed(front, true) + Seq::<u8>::empty() =~= printed(front, true));
                }
            },
            _ => {
                assert(printed(front, false) + Seq::<u8>::empty() =~= printed(front, false));
                assert(printed(front, true) + Seq::<u8>::empty() =~= printed(front, true));
            },
        }
    }
}

/// The code of a command is the last that came.
pub proof fn lemma_last_code_counts(
    state: ExecOutputView,
    events: Seq<ChannelEventView>,
    i: int,
    code: u32,
)
    requires
        0 <= i < events.len(),
        events[i] == ChannelEventView::ExitStatus(code),
        forall|j: int| i < j < events.len() ==> !(#[trigger] events[j] is ExitStatus),
    ensures
        exec_run(state, events).exit_code == code,
    decreases events.len(),
{
    let front = events.drop_last();
    let end = events.len() - 1;
    assert(events[end] == events.last());
    if i < end {
        assert(!(events[end] is ExitStatus));
        assert forall|j: int| i < j < front.len() implies !(#[trigger] front[j] is ExitStatus) by {
            assert(events[j] == front[j]);
        }
        lemma_last_code_counts(state, front, i, code);
    }
}

/// Without a code the one before stands.
pub proof fn lemma_no_code_no_change(state: ExecOutputView, events: Seq<ChannelEventView>)
    requires
        forall|j: int| 0 <= j < events.len() ==> !(#[trigger] events[j] is ExitStatus),
    ensures
        exec_run(state, events).exit_code == state.exit_code,
    decreases events.len(),
{
    if events.len() > 0 {
        let front = events.drop_last();
        assert(!(events[events.len() - 1] is ExitStatus));
        assert forall|j: int| 0 <= j < front.len() implies !(#[trigger] front[j] is ExitStatus) by {
            assert(events[j] == front[j]);
        }
        lemma_no_code_no_change(state, front);
    }
}

} // verus!
