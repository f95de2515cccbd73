//! Passing the host's sound server into a session.

use crate::paths::{join_path, path_join};
use crate::text::{cat2, cat4, decimal, decimal_text, text_pairs};
use vstd::prelude::*;

verus! {

/// The mount and the variables through which a session plays sound.
pub struct Passthrough {
    pub volume: String,
    pub env: Vec<(String, String)>,
}

pub struct PassthroughView {
    pub volume: Seq<char>,
    pub env: Seq<(Seq<char>, Seq<char>)>,
}

impl View for Passthrough {
    type V = PassthroughView;

    open spec fn view(&self) -> PassthroughView {
        PassthroughView { volume: self.volume@, env: text_pairs(self.env@) }
    }
}

/// The host's socket, below its runtime directory.
pub open spec fn socket_in(runtime_dir: Seq<char>) -> Seq<char> {
    path_join(runtime_dir, "pulse/native"@)
}

pub fn host_socket(runtime_dir: &str) -> (r: String)
    ensures
        r@ == socket_in(runtime_dir@),
{
    join_path(runtime_dir, "pulse/native")
}

pub open spec fn guest_dir(uid: nat) -> Seq<char> {
    "/run/user/"@ + decimal_text(uid)
}

pub open spec fn sound_through(socket: Seq<char>, uid: nat) -> PassthroughView {
    let guest_socket = guest_dir(uid) + "/pulse/native"@;
    PassthroughView {
        volume: socket + ":"@ + guest_socket + ":rw,Z"@,
        env: seq![
            ("XDG_RUNTIME_DIR"@, guest_dir(uid)),
            ("PULSE_SERVER"@, "unix:"@ + guest_socket),
        ],
    }
}

/// What a session without sound is warned about.
pub open spec fn silence(linux: bool) -> Seq<char> {
    if linux {
        "warning: audio = true but no PulseAudio socket was found under $XDG_RUNTIME_DIR; running without sound"@
    } else {
        "warning: audio = true requires a Linux host; running without sound"@
    }
}

/// Passes the sound server at `runtime_dir` into a session, or warns that
/// there is none.
pub fn passthrough_in(
    linux: bool,
    runtime_dir: Option<&String>,
    socket_exists: bool,
    uid: u32,
) -> (r: Result<Passthrough, String>)
    ensures
        (match r {
            Ok(sound) => linux && socket_exists && runtime_dir is Some && sound@ == sound_through(
                socket_in(runtime_dir->Some_0@),
                uid as nat,
            ),
            Err(warning) => (!linux || !socket_exists || runtime_dir is None) && warning@
                == silence(linux),
        }),
{
    if !linux {
        return Err(
            "warning: audio = true requires a Linux host; running without sound".to_owned(),
        );
    }
    match runtime_dir {
        Some(dir) if socket_exists => {
            let socket = host_socket(dir.as_str());
            let number = decimal(uid as u64);
            let guest = cat2("/run/user/", number.as_str());
            let guest_socket = cat2(guest.as_str(), "/pulse/native");
            let sound = Passthrough {
                volume: cat4(socket.as_str(), ":", guest_socket.as_str(), ":rw,Z"),
                env: vec![
                    ("XDG_RUNTIME_DIR".to_owned(), guest),
                    ("PULSE_SERVER".to_owned(), cat2("unix:", guest_socket.as_str())),
                ],
            };
            assert(sound@.env =~= sound_through(socket@, uid as nat).env);
            Ok(sound)
        },
        _ => Err(
            "warning: audio = true but no PulseAudio socket was found under $XDG_RUNTIME_DIR; running without sound".to_owned(),
        ),
    }
}

} // verus!
