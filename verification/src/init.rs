//! Init system detection and supervisor notification.
//!
//! Detection happens at run time: the same program works on any init system.
//! All of them converge on two messages, "ready" and "stopping". Where a
//! supervisor listens on a notification socket, a message is a datagram to it;
//! where it has left a file descriptor for readiness, a newline goes there;
//! otherwise there is nothing to send.

use vstd::prelude::*;

use crate::text;
use crate::text::{after_prefix, format_u64, owned, parse_i32, same, trimmed};

verus! {

// ---------------------------------------------------------------------------
// Init system
// ---------------------------------------------------------------------------

/// The init systems that are told apart.
#[derive(Clone, Copy, Debug, PartialEq, Eq, Structural)]
pub enum InitSystem {
    Systemd,
    Runit,
    S6,
    OpenRC,
    Unknown,
}

/// Which of the directories exist by which an init system can be told.
#[derive(Clone, Copy, Debug, PartialEq, Eq, Structural)]
pub struct RunDirs {
    /// `/run/systemd/system`
    pub systemd: bool,
    /// `/run/runit`
    pub runit: bool,
    /// `/run/s6`
    pub s6: bool,
    /// `/run/s6-rc`
    pub s6_rc: bool,
    /// `/run/openrc`
    pub openrc: bool,
}

/// The init system with that name of process 1, or else the one whose
/// directory exists.
pub open spec fn init_of(comm: Seq<char>, dirs: RunDirs) -> InitSystem {
    if comm == "systemd"@ {
        InitSystem::Systemd
    } else if comm == "runit"@ {
        InitSystem::Runit
    } else if comm == "s6-svscan"@ {
        InitSystem::S6
    } else if comm == "openrc-init"@ {
        InitSystem::OpenRC
    } else if dirs.systemd {
        InitSystem::Systemd
    } else if dirs.runit {
        InitSystem::Runit
    } else if dirs.s6 || dirs.s6_rc {
        InitSystem::S6
    } else if dirs.openrc {
        InitSystem::OpenRC
    } else {
        InitSystem::Unknown
    }
}

/// The name of process 1 in the text of its `comm` file, empty where that
/// could not be read.
pub open spec fn pid1_name(comm_text: Option<&str>) -> Seq<char> {
    match comm_text {
        Some(s) => text::trim(s@),
        None => Seq::empty(),
    }
}

/// The grace period of an init system in seconds.
pub open spec fn grace_secs(init: InitSystem) -> u64 {
    match init {
        InitSystem::Systemd => 10,
        _ => 30,
    }
}

impl InitSystem {
    /// Detects the init system from the text of `/proc/1/comm` and the
    /// directories below `/run`.
    pub fn detect(comm_text: Option<&str>, dirs: RunDirs) -> (r: InitSystem)
        ensures
            r == init_of(pid1_name(comm_text), dirs),
    {
        let comm = match comm_text {
            Some(s) => trimmed(s),
            None => String::new(),
        };
        assert(comm@ =~= pid1_name(comm_text));
        if same(comm.as_str(), "systemd") {
            return InitSystem::Systemd;
        }
        if same(comm.as_str(), "runit") {
            return InitSystem::Runit;
        }
        if same(comm.as_str(), "s6-svscan") {
            return InitSystem::S6;
        }
        if same(comm.as_str(), "openrc-init") {
            return InitSystem::OpenRC;
        }
        if dirs.systemd {
            return InitSystem::Systemd;
        }
        if dirs.runit {
            return InitSystem::Runit;
        }
        if dirs.s6 || dirs.s6_rc {
            return InitSystem::S6;
        }
        if dirs.openrc {
            return InitSystem::OpenRC;
        }
        InitSystem::Unknown
    }

    /// Whether there is a supervisor to notify: any that has set a
    /// notification socket, whichever the init system.
    pub fn supports_notify_socket(&self, notify_socket: &Option<String>) -> (r: bool)
        ensures
            r == notify_socket is Some,
    {
        notify_socket.is_some()
    }

    /// The grace period after startup, in seconds. Other init systems than
    /// systemd often start the daemon before the session is complete.
    pub fn startup_grace_secs(&self) -> (r: u64)
        ensures
            r == grace_secs(*self),
    {
        match self {
            InitSystem::Systemd => 10,
            InitSystem::Runit => 30,
            InitSystem::S6 => 30,
            InitSystem::OpenRC => 30,
            InitSystem::Unknown => 30,
        }
    }
}

// ---------------------------------------------------------------------------
// Notices
// ---------------------------------------------------------------------------

/// A message to the supervisor.
#[derive(Clone, Debug, PartialEq, Eq)]
pub enum Notice {
    /// A datagram to a socket. An address that starts with a zero character
    /// is in the abstract namespace.
    Datagram { address: String, message: String },
    /// A newline to a file descriptor.
    Newline { fd: i32 },
}

/// What a notice says.
#[verifier::ext_equal]
pub enum NoticeView {
    Datagram { address: Seq<char>, message: Seq<char> },
    Newline { fd: i32 },
}

impl View for Notice {
    type V = NoticeView;

    open spec fn view(&self) -> NoticeView {
        match self {
            Notice::Datagram { address, message } => NoticeView::Datagram {
                address: address@,
                message: message@,
            },
            Notice::Newline { fd } => NoticeView::Newline { fd: *fd },
        }
    }
}

/// What each notice of a sequence says.
pub open spec fn notice_views(v: Seq<Notice>) -> Seq<NoticeView> {
    Seq::new(v.len(), |i: int| v[i]@)
}

/// The address that a notification socket stands for: a leading `@` marks the
/// abstract namespace.
pub open spec fn socket_address(socket: Seq<char>) -> Seq<char> {
    match text::strip_prefix(socket, "@"@) {
        Some(rest) => seq!['\0'] + rest,
        None => socket,
    }
}

/// The datagram with a message, if there is a socket to send it to.
pub open spec fn datagrams(socket: Option<Seq<char>>, message: Seq<char>) -> Seq<NoticeView> {
    match socket {
        Some(s) => seq![NoticeView::Datagram { address: socket_address(s), message }],
        None => Seq::empty(),
    }
}

/// The newline to the file descriptor that a text names, if it names one.
pub open spec fn newlines(ready_fd: Option<Seq<char>>) -> Seq<NoticeView> {
    match ready_fd {
        Some(s) => match text::signed_value(s, i32::MIN as int, i32::MAX as int) {
            Some(fd) => seq![NoticeView::Newline { fd: fd as i32 }],
            None => Seq::empty(),
        },
        None => Seq::empty(),
    }
}

/// The datagram with a message to a notification socket.
pub fn sd_notify(socket_path: &str, message: String) -> (r: Notice)
    ensures
        r@ == (NoticeView::Datagram { address: socket_address(socket_path@), message: message@ }),
{
    let address = match after_prefix(socket_path, "@") {
        Some(rest) => {
            let mut a: String = String::new();
            a.push('\0');
            a.append(rest.as_str());
            assert(a@ =~= seq!['\0'] + rest@);
            a
        },
        None => owned(socket_path),
    };
    Notice::Datagram { address, message }
}

fn labelled_line(label: &str, value: &str) -> (r: String)
    ensures
        r@ == label@ + value@ + seq!['\n'],
{
    let mut m: String = String::new();
    m.append(label);
    m.append(value);
    m.push('\n');
    assert(m@ =~= label@ + value@ + seq!['\n']);
    m
}

// ---------------------------------------------------------------------------
// Supervisors
// ---------------------------------------------------------------------------

/// What a service supervisor is told. Every method but the first gives the
/// notices to send, none unless an implementation says otherwise.
pub trait Supervisor {
    /// The init system of the supervisor.
    fn init_system(&self) -> InitSystem;

    /// The daemon is ready. The notices are attempts, to be made in order
    /// until one succeeds.
    fn ready(&self) -> (r: Vec<Notice>)
        default_ensures
            r@.len() == 0,
    {
        Vec::new()
    }

    /// The daemon is about to exit.
    fn stopping(&self) -> (r: Vec<Notice>)
        default_ensures
            r@.len() == 0,
    {
        Vec::new()
    }

    /// What the daemon is doing, for people to read.
    fn status(&self, msg: &str) -> (r: Vec<Notice>)
        default_ensures
            r@.len() == 0,
    {
        Vec::new()
    }

    /// The main process of the daemon.
    fn mainpid(&self, pid: u32) -> (r: Vec<Notice>)
        default_ensures
            r@.len() == 0,
    {
        Vec::new()
    }

    /// The startup takes this much longer.
    fn extend_timeout(&self, usec: u64) -> (r: Vec<Notice>)
        default_ensures
            r@.len() == 0,
    {
        Vec::new()
    }
}

/// The supervisor that the environment of the daemon tells of.
#[derive(Clone, Debug)]
pub struct SupervisorNotify {
    init: InitSystem,
    notify_socket: Option<String>,
    ready_fd: Option<String>,
}

impl SupervisorNotify {
    /// The init system.
    pub closed spec fn system(&self) -> InitSystem {
        self.init
    }

    /// The notification socket.
    pub closed spec fn socket(&self) -> Option<Seq<char>> {
        text::opt_text(self.notify_socket)
    }

    /// The text that names the file descriptor for readiness.
    pub closed spec fn fd_text(&self) -> Option<Seq<char>> {
        text::opt_text(self.ready_fd)
    }

    /// Detects the supervisor from what was read of process 1, the
    /// directories below `/run`, and the two variables of the environment.
    pub fn detect(
        comm_text: Option<&str>,
        dirs: RunDirs,
        notify_socket: Option<String>,
        ready_fd: Option<String>,
    ) -> (r: SupervisorNotify)
        ensures
            r.system() == init_of(pid1_name(comm_text), dirs),
            r.socket() == text::opt_text(notify_socket),
            r.fd_text() == text::opt_text(ready_fd),
    {
        SupervisorNotify { init: InitSystem::detect(comm_text, dirs), notify_socket, ready_fd }
    }

    /// The init system, for tuning that depends on it.
    pub fn init(&self) -> (r: InitSystem)
        ensures
            r == self.system(),
    {
        self.init
    }

    fn send(&self, message: String) -> (r: Vec<Notice>)
        ensures
            notice_views(r@) == datagrams(self.socket(), message@),
    {
        let mut r: Vec<Notice> = Vec::new();
        if let Some(socket) = &self.notify_socket {
            r.push(sd_notify(socket.as_str(), message));
        }
        assert(notice_views(r@) =~= datagrams(self.socket(), message@));
        r
    }
}

impl Supervisor for SupervisorNotify {
    fn init_system(&self) -> (r: InitSystem)
        ensures
            r == self.system(),
    {
        self.init
    }

    /// First the notification socket, then the file descriptor; without
    /// either the daemon counts as ready when it runs.
    fn ready(&self) -> (r: Vec<Notice>)
        ensures
            notice_views(r@) == datagrams(self.socket(), "READY=1\n"@) + newlines(self.fd_text()),
    {
        let mut r = self.send(owned("READY=1\n"));
        let ghost first = notice_views(r@);
        if let Some(fd_text) = &self.ready_fd {
            if let Some(fd) = parse_i32(fd_text.as_str()) {
                r.push(Notice::Newline { fd });
            }
        }
        assert(notice_views(r@) =~= first + newlines(self.fd_text()));
        r
    }

    fn stopping(&self) -> (r: Vec<Notice>)
        ensures
            notice_views(r@) == datagrams(self.socket(), "STOPPING=1\n"@),
    {
        self.send(owned("STOPPING=1\n"))
    }

    fn status(&self, msg: &str) -> (r: Vec<Notice>)
        ensures
            notice_views(r@) == datagrams(self.socket(), "STATUS="@ + msg@ + seq!['\n']),
    {
        self.send(labelled_line("STATUS=", msg))
    }

    fn mainpid(&self, pid: u32) -> (r: Vec<Notice>)
        ensures
            notice_views(r@) == datagrams(
                self.socket(),
                "MAINPID="@ + text::decimal(pid as nat) + seq!['\n'],
            ),
    {
        let digits = format_u64(pid as u64);
        self.send(labelled_line("MAINPID=", digits.as_str()))
    }

    fn extend_timeout(&self, usec: u64) -> (r: Vec<Notice>)
        ensures
            notice_views(r@) == datagrams(
                self.socket(),
                "EXTEND_TIMEOUT_USEC="@ + text::decimal(usec as nat) + seq!['\n'],
            ),
    {
        let digits = format_u64(usec);
        self.send(labelled_line("EXTEND_TIMEOUT_USEC=", digits.as_str()))
    }
}

/// A supervisor without a notification socket is sent no datagram, whatever
/// the message.
pub proof fn no_socket_no_datagram(message: Seq<char>)
    ensures
        datagrams(None, message).len() == 0,
{
}

/// The name of process 1 decides which init system runs; only where it tells
/// nothing do the directories decide, the first that exists in a fixed order.
pub proof fn name_decides_before_directories(comm: Seq<char>, dirs: RunDirs)
    ensures
        init_of("systemd"@, dirs) == InitSystem::Systemd,
        init_of("runit"@, dirs) == InitSystem::Runit,
        init_of("s6-svscan"@, dirs) == InitSystem::S6,
        init_of("openrc-init"@, dirs) == InitSystem::OpenRC,
        comm != "systemd"@ && comm != "runit"@ && comm != "s6-svscan"@ && comm != "openrc-init"@
            ==> {
            &&& dirs.systemd ==> init_of(comm, dirs) == InitSystem::Systemd
            &&& !dirs.systemd && dirs.runit ==> init_of(comm, dirs) == InitSystem::Runit
            &&& !dirs.systemd && !dirs.runit && (dirs.s6 || dirs.s6_rc) ==> init_of(comm, dirs)
                == InitSystem::S6
            &&& !dirs.systemd && !dirs.runit && !dirs.s6 && !dirs.s6_rc && dirs.openrc ==> init_of(
                comm,
                dirs,
            ) == InitSystem::OpenRC
            &&& !dirs.systemd && !dirs.runit && !dirs.s6 && !dirs.s6_rc && !dirs.openrc ==> init_of(
                comm,
                dirs,
            ) == InitSystem::Unknown
        },
{
    reveal_strlit("systemd");
    reveal_strlit("runit");
    reveal_strlit("s6-svscan");
    reveal_strlit("openrc-init");
    assert("systemd"@.len() == 7 && "runit"@.len() == 5 && "s6-svscan"@.len() == 9
        && "openrc-init"@.len() == 11);
}

/// The name of process 1 is read without the line break behind it.
pub proof fn name_is_read_without_its_line_break(line: &str, name: Seq<char>)
    requires
        line@ == name.push('\n'),
        name.len() > 0,
        forall|i: int| 0 <= i < name.len() ==> '!' <= #[trigger] name[i] <= '~',
    ensures
        pid1_name(Some(line)) == name,
        pid1_name(None).len() == 0,
{
    assert('!' <= name[0] <= '~' && '!' <= name[name.len() - 1] <= '~');
    assert(Seq::<char>::empty() + name + seq!['\n'] =~= line@);
    text::trimming_takes_the_spaces(Seq::empty(), name, seq!['\n']);
}

/// The grace period after startup is ten seconds under systemd and thirty
/// under every other init system.
pub proof fn grace_depends_on_the_init_system(init: InitSystem)
    ensures
        grace_secs(init) == if init == InitSystem::Systemd {
            10u64
        } else {
            30u64
        },
{
}

/// A leading at-sign stands for the zero that marks an abstract address; every
/// other path is the address itself.
pub proof fn at_sign_marks_an_abstract_address(rest: Seq<char>, socket: Seq<char>)
    ensures
        socket_address(seq!['@'] + rest) == seq!['\0'] + rest,
        socket.len() == 0 || socket[0] != '@' ==> socket_address(socket) == socket,
{
    reveal_strlit("@");
    assert("@"@ =~= seq!['@']);
    text::parts_are_found(Seq::empty(), "@"@, rest);
    if text::starts_with(socket, "@"@) {
        assert(socket.subrange(0, 1)[0] == socket[0]);
    }
}

/// A message goes to the socket if there is one, and a line break to the file
/// descriptor if its text is a number.
pub proof fn notices_reach_the_supervisor(socket: Seq<char>, message: Seq<char>, fd: i32)
    ensures
        datagrams(Some(socket), message) == seq![
            NoticeView::Datagram { address: socket_address(socket), message },
        ],
        newlines(Some(text::signed_decimal(fd as int))) == seq![NoticeView::Newline { fd }],
        newlines(None).len() == 0,
        newlines(Some(Seq::empty())).len() == 0,
{
    text::reading_undoes_signed_writing(fd as int, i32::MIN as int, i32::MAX as int);
}

} // verus!
