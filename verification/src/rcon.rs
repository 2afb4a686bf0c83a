//! Protocol-level requests, responses and errors, and the per-connection
//! authentication and dispatch state machine.

use vstd::prelude::*;
use vstd::string::StringExecFns;
use crate::bindings::CmdSource;
use crate::codec::{
    encode_packet, packet_bytes, SERVERDATA_AUTH, SERVERDATA_AUTH_RESPONSE,
    SERVERDATA_EXECCOMMAND, SERVERDATA_RESPONSE_VALUE,
};
use crate::console::{buffer_after_pushes, concat_chars, concat_lines, ConsoleAccess};

verus! {

/// `std::io::Error` carried through protocol results; opaque to the
/// verifier, produced only by the unverified transport around the library.
#[verifier::external_type_specification]
#[verifier::external_body]
pub struct ExIoError(std::io::Error);

/// Everything that can go wrong while reading or servicing one request.
/// Any of these ends the offending connection; no other connection is
/// affected.
#[derive(Debug)]
pub enum RconRequestError {
    /// A byte slice did not have the length an integer field needs.
    VecToArrayError,
    /// A well-framed request carried a type value that is neither
    /// authentication nor command execution.
    InvalidRequestType(i32),
    /// The announced packet size was negative.
    IntCastFail,
    /// A read returned the wrong number of bytes for the framing.
    ReadWrongAmount(usize),
    /// A command was submitted on a connection that never authenticated.
    InvalidClientID(i32),
    /// The transport failed; would-block conditions are carried here too
    /// and filtered out by [`connection_fatal`].
    SocketError(std::io::Error),
}

/// Whether a transport error reports a would-block condition: what
/// `std::io::Error::kind` answers for it, a function of the error value
/// alone.
pub uninterp spec fn io_would_block_of(e: &std::io::Error) -> bool;

/// Relies on `std::io::Error::kind`: tells a would-block condition apart
/// from every other transport failure; the answer depends on the error
/// value alone.
#[verifier::external_body]
fn io_error_would_block(e: &std::io::Error) -> (r: bool)
    ensures
        r == io_would_block_of(e),
{
    e.kind() == std::io::ErrorKind::WouldBlock
}

/// True when `err` must end its connection. A would-block transport
/// result only postpones the connection to the next tick; every other
/// error — protocol, framing, or transport — is fatal for the
/// connection.
pub fn connection_fatal(err: &RconRequestError) -> (fatal: bool)
    ensures
        !(err is SocketError) ==> fatal,
        err matches RconRequestError::SocketError(e) ==> fatal == !io_would_block_of(&e),
{
    match err {
        RconRequestError::SocketError(e) => !io_error_would_block(e),
        _ => true,
    }
}

/// One response packet before encoding.
pub struct RconResponse {
    /// Echo of the client-assigned request id, or `-1` for a failed
    /// authentication.
    pub id: i32,
    /// Response type code.
    pub ty: i32,
    /// UTF-8 response text.
    pub content: String,
}

impl RconResponse {
    /// The response as wire bytes, size field first.
    pub fn encode(self) -> (r: Vec<u8>)
        ensures
            r@ == packet_bytes(self.id, self.ty, self.content@),
    {
        encode_packet(self.id, self.ty, self.content.as_str())
    }
}

/// Protocol state of one accepted connection. The socket itself stays
/// with the transport layer around the library; the state machine needs
/// only whether the peer has authenticated.
pub struct RconStream {
    /// True once an authentication request matched the server password;
    /// reset by a later mismatch, gone when the connection is dropped.
    pub auth: bool,
}

/// What the dispatcher decided for one well-formed request.
pub enum RconDispatch {
    /// Reply immediately with this response.
    Reply(RconResponse),
    /// Queue `cmd` on the host's executor under `source`, flush the
    /// executor, then reply to `client_id` with whatever console output
    /// the command produced (see [`drain_response`]).
    Execute {
        /// The command text to forward, exactly as submitted.
        cmd: String,
        /// Origin marker handed to the executor; always code-originated.
        source: CmdSource,
        /// Request id to echo in the eventual reply.
        client_id: i32,
    },
}

/// Decide what one decoded request does: authenticate, dump the buffered
/// console output, or hand the command text on for execution.
///
/// An authentication attempt matches `content` against the password:
/// a match authenticates the connection and echoes the request id; a
/// mismatch resets the connection to unauthenticated and answers id `-1`.
/// A command on an unauthenticated connection is refused — fatally for
/// the connection. The reserved command text `dumpconsole` answers with
/// the currently buffered console output, reading it without consuming
/// it; any other command is handed back for execution. A request type
/// that is neither authentication nor command execution is refused.
pub fn parse_response(
    conn: &mut RconStream,
    password: &String,
    console: &ConsoleAccess,
    client_id: i32,
    request_type: i32,
    content: String,
) -> (r: Result<RconDispatch, RconRequestError>)
    ensures
        request_type == SERVERDATA_AUTH ==> {
            &&& final(conn).auth == (content@ == password@)
            &&& r matches Ok(RconDispatch::Reply(resp))
            &&& r matches Ok(RconDispatch::Reply(resp)) ==> {
                &&& resp.ty == SERVERDATA_AUTH_RESPONSE
                &&& resp.content@ == Seq::<char>::empty()
                &&& resp.id == (if content@ == password@ {
                    client_id
                } else {
                    -1i32
                })
            }
        },
        request_type == SERVERDATA_EXECCOMMAND && !old(conn).auth ==> {
            &&& r == Err::<RconDispatch, RconRequestError>(
                RconRequestError::InvalidClientID(client_id),
            )
            &&& final(conn).auth == old(conn).auth
        },
        request_type == SERVERDATA_EXECCOMMAND && old(conn).auth ==> final(conn).auth,
        request_type == SERVERDATA_EXECCOMMAND && old(conn).auth && content@ == "dumpconsole"@
            ==> {
            &&& r matches Ok(RconDispatch::Reply(resp))
            &&& r matches Ok(RconDispatch::Reply(resp)) ==> {
                &&& resp.id == client_id
                &&& resp.ty == SERVERDATA_RESPONSE_VALUE
                &&& resp.content@ == concat_chars(console@)
            }
        },
        request_type == SERVERDATA_EXECCOMMAND && old(conn).auth && content@ != "dumpconsole"@
            ==> {
            &&& r matches Ok(RconDispatch::Execute { cmd, source, client_id: cid })
            &&& r matches Ok(RconDispatch::Execute { cmd, source, client_id: cid }) ==> {
                &&& cmd@ == content@
                &&& source is Code
                &&& cid == client_id
            }
        },
        request_type != SERVERDATA_AUTH && request_type != SERVERDATA_EXECCOMMAND ==> {
            &&& r == Err::<RconDispatch, RconRequestError>(
                RconRequestError::InvalidRequestType(request_type),
            )
            &&& final(conn).auth == old(conn).auth
        },
{
    if request_type == SERVERDATA_AUTH {
        if content == *password {
            conn.auth = true;
            Ok(RconDispatch::Reply(
                RconResponse { id: client_id, ty: SERVERDATA_AUTH_RESPONSE, content: String::new() },
            ))
        } else {
            conn.auth = false;
            Ok(RconDispatch::Reply(
                RconResponse { id: -1, ty: SERVERDATA_AUTH_RESPONSE, content: String::new() },
            ))
        }
    } else if request_type == SERVERDATA_EXECCOMMAND {
        if !conn.auth {
            return Err(RconRequestError::InvalidClientID(client_id));
        }
        let dump = String::from_str("dumpconsole");
        if content == dump {
            let text = concat_lines(console.get_last_console_output());
            Ok(RconDispatch::Reply(
                RconResponse { id: client_id, ty: SERVERDATA_RESPONSE_VALUE, content: text },
            ))
        } else {
            Ok(RconDispatch::Execute { cmd: content, source: CmdSource::Code, client_id })
        }
    } else {
        Err(RconRequestError::InvalidRequestType(request_type))
    }
}

/// Build the reply to an executed command: every buffered console line,
/// oldest first, joined as the response content — and consumed, leaving
/// the buffer empty.
pub fn drain_response(console: &mut ConsoleAccess, client_id: i32) -> (r: RconResponse)
    ensures
        r.id == client_id,
        r.ty == SERVERDATA_RESPONSE_VALUE,
        r.content@ == concat_chars(old(console)@),
        final(console)@ == Seq::<Seq<char>>::empty(),
{
    let lines = console.drain_all();
    let slice = lines.as_slice();
    let content = concat_lines(slice);
    proof {
        assert(slice.deep_view() =~= lines.deep_view());
    }
    RconResponse { id: client_id, ty: SERVERDATA_RESPONSE_VALUE, content }
}

/// The remote-console server's protocol state: the shared password, the
/// live connections' authentication flags, and the console buffer. The
/// listening socket and the per-connection byte streams live with the
/// transport layer around the library, which drives one non-blocking
/// tick at a time against this state: capture pending console lines,
/// accept at most one connection, then read, dispatch and answer at most
/// one packet per connection.
pub struct RconServer {
    password: String,
    connections: Vec<RconStream>,
    console: ConsoleAccess,
}

impl RconServer {
    /// The server password, as the contracts see it.
    pub closed spec fn spec_password(&self) -> Seq<char> {
        self.password@
    }

    /// Authentication flags of the live connections, in set order.
    pub closed spec fn spec_auths(&self) -> Seq<bool> {
        Seq::new(self.connections@.len() as nat, |i: int| self.connections@[i].auth)
    }

    /// The buffered console lines, oldest first.
    pub closed spec fn spec_console(&self) -> Seq<Seq<char>> {
        self.console@
    }

    /// A server with no connections and an empty console buffer. Binding
    /// the listening socket is the transport layer's part.
    pub fn new(password: String, console_recv: std::sync::mpsc::Receiver<String>) -> (r:
        RconServer)
        ensures
            r.spec_password() == password@,
            r.spec_auths() == Seq::<bool>::empty(),
            r.spec_console() == Seq::<Seq<char>>::empty(),
    {
        let r = RconServer {
            password,
            connections: Vec::new(),
            console: ConsoleAccess::new(console_recv),
        };
        proof {
            assert(r.spec_auths() =~= Seq::<bool>::empty());
        }
        r
    }

    /// Tick step one: move every pending console line into the buffer.
    pub fn capture_console(&mut self)
        ensures
            final(self).spec_password() == old(self).spec_password(),
            final(self).spec_auths() == old(self).spec_auths(),
            exists|lines: Seq<Seq<char>>|
                final(self).spec_console() == buffer_after_pushes(
                    old(self).spec_console(),
                    lines,
                ),
    {
        self.console.capture_all();
        proof {
            let lines = choose|lines: Seq<Seq<char>>|
                self.console@ == buffer_after_pushes(old(self).console@, lines);
            assert(self.spec_console() == buffer_after_pushes(old(self).spec_console(), lines));
        }
    }

    /// Admit one freshly accepted connection, unauthenticated.
    pub fn accept_connection(&mut self)
        ensures
            final(self).spec_password() == old(self).spec_password(),
            final(self).spec_console() == old(self).spec_console(),
            final(self).spec_auths() == old(self).spec_auths().push(false),
    {
        self.connections.push(RconStream { auth: false });
        proof {
            assert(self.spec_auths() =~= old(self).spec_auths().push(false));
        }
    }

    /// How many connections are live.
    pub fn connection_count(&self) -> (n: usize)
        ensures
            n == self.spec_auths().len(),
    {
        self.connections.len()
    }

    /// Whether connection `i` has authenticated.
    pub fn connection_auth(&self, i: usize) -> (auth: bool)
        requires
            i < self.spec_auths().len(),
        ensures
            auth == self.spec_auths()[i as int],
    {
        self.connections[i].auth
    }

    /// Tear one connection out of the live set; its peer must reconnect.
    pub fn drop_connection(&mut self, i: usize)
        requires
            i < old(self).spec_auths().len(),
        ensures
            final(self).spec_password() == old(self).spec_password(),
            final(self).spec_console() == old(self).spec_console(),
            final(self).spec_auths() == old(self).spec_auths().remove(i as int),
    {
        self.connections.remove(i);
        proof {
            assert(self.spec_auths() =~= old(self).spec_auths().remove(i as int));
        }
    }

    /// Dispatch one decoded request on connection `i`, exactly as
    /// [`parse_response`] decides it: authentication flips the
    /// connection's flag, a command needs the flag set, `dumpconsole`
    /// answers the buffered output, any other command is handed back for
    /// execution, and everything else is refused. No other connection is
    /// touched.
    pub fn dispatch(
        &mut self,
        i: usize,
        client_id: i32,
        request_type: i32,
        content: String,
    ) -> (r: Result<RconDispatch, RconRequestError>)
        requires
            i < old(self).spec_auths().len(),
        ensures
            final(self).spec_password() == old(self).spec_password(),
            final(self).spec_console() == old(self).spec_console(),
            final(self).spec_auths() == old(self).spec_auths().update(
                i as int,
                final(self).spec_auths()[i as int],
            ),
            request_type == SERVERDATA_AUTH ==> {
                &&& final(self).spec_auths()[i as int] == (content@
                    == old(self).spec_password())
                &&& r matches Ok(RconDispatch::Reply(resp))
                &&& r matches Ok(RconDispatch::Reply(resp)) ==> {
                    &&& resp.ty == SERVERDATA_AUTH_RESPONSE
                    &&& resp.content@ == Seq::<char>::empty()
                    &&& resp.id == (if content@ == old(self).spec_password() {
                        client_id
                    } else {
                        -1i32
                    })
                }
            },
            request_type == SERVERDATA_EXECCOMMAND && !old(self).spec_auths()[i as int] ==> {
                &&& r == Err::<RconDispatch, RconRequestError>(
                    RconRequestError::InvalidClientID(client_id),
                )
                &&& final(self).spec_auths() == old(self).spec_auths()
            },
            request_type == SERVERDATA_EXECCOMMAND && old(self).spec_auths()[i as int]
                ==> final(self).spec_auths()[i as int],
            request_type == SERVERDATA_EXECCOMMAND && old(self).spec_auths()[i as int]
                && content@ == "dumpconsole"@ ==> {
                &&& r matches Ok(RconDispatch::Reply(resp))
                &&& r matches Ok(RconDispatch::Reply(resp)) ==> {
                    &&& resp.id == client_id
                    &&& resp.ty == SERVERDATA_RESPONSE_VALUE
                    &&& resp.content@ == concat_chars(old(self).spec_console())
                }
            },
            request_type == SERVERDATA_EXECCOMMAND && old(self).spec_auths()[i as int]
                && content@ != "dumpconsole"@ ==> {
                &&& r matches Ok(RconDispatch::Execute { cmd, source, client_id: cid })
                &&& r matches Ok(RconDispatch::Execute { cmd, source, client_id: cid }) ==> {
                    &&& cmd@ == content@
                    &&& source is Code
                    &&& cid == client_id
                }
            },
            request_type != SERVERDATA_AUTH && request_type != SERVERDATA_EXECCOMMAND ==> {
                &&& r == Err::<RconDispatch, RconRequestError>(
                    RconRequestError::InvalidRequestType(request_type),
                )
                &&& final(self).spec_auths() == old(self).spec_auths()
            },
    {
        let r = parse_response(
            &mut self.connections[i],
            &self.password,
            &self.console,
            client_id,
            request_type,
            content,
        );
        proof {
            assert(self.spec_auths() =~= old(self).spec_auths().update(
                i as int,
                self.spec_auths()[i as int],
            ));
            if self.spec_auths()[i as int] == old(self).spec_auths()[i as int] {
                assert(self.spec_auths() =~= old(self).spec_auths());
            }
        }
        r
    }

    /// Finish an executed command: capture whatever output it put on the
    /// console channel, then answer `client_id` with the whole buffer,
    /// consuming it.
    pub fn finish_command(&mut self, client_id: i32) -> (r: RconResponse)
        ensures
            final(self).spec_password() == old(self).spec_password(),
            final(self).spec_auths() == old(self).spec_auths(),
            final(self).spec_console() == Seq::<Seq<char>>::empty(),
            r.id == client_id,
            r.ty == SERVERDATA_RESPONSE_VALUE,
            exists|lines: Seq<Seq<char>>|
                r.content@ == concat_chars(
                    buffer_after_pushes(old(self).spec_console(), lines),
                ),
    {
        self.console.capture_all();
        let ghost lines = choose|lines: Seq<Seq<char>>|
            self.console@ == buffer_after_pushes(old(self).console@, lines);
        let r = drain_response(&mut self.console, client_id);
        proof {
            assert(r.content@ == concat_chars(
                buffer_after_pushes(old(self).spec_console(), lines),
            ));
        }
        r
    }
}

/// Law: the dump path is read-only, so dumping twice with no push in
/// between answers identical content. Both replies carry exactly the
/// concatenation of the buffered lines, which the dump never changes.
pub proof fn lemma_dump_idempotent(
    console: Seq<Seq<char>>,
    first_reply: Seq<char>,
    second_reply: Seq<char>,
)
    requires
        first_reply == concat_chars(console),
        second_reply == concat_chars(console),
    ensures
        first_reply == second_reply,
{
}

} // verus!
