//! The control plane seen from the RPC listener: the wire shape of a
//! backend record, the conversions to and from the routing table's own
//! record, and how each operation's outcome becomes a reply.  The RPC
//! transport itself is a collaborator and lives with the caller.

use vstd::prelude::*;

use crate::backend::Backend;

verus! {

use vstd::string::StringExecFns;

/// The RPC listener: it serves control requests on `addr` and turns each
/// into one mailbox event.
pub struct Listener {
    addr: String,
}

impl View for Listener {
    type V = Seq<char>;

    closed spec fn view(&self) -> Seq<char> {
        self.addr@
    }
}

impl Listener {
    /// A listener that will bind to `addr`.
    pub fn new(addr: String) -> (r: Self)
        ensures
            r@ == addr@,
    {
        Self { addr }
    }

    /// The address this listener binds to.
    pub fn addr(&self) -> (r: &str)
        ensures
            r@ == self@,
    {
        self.addr.as_str()
    }
}

/// A backend as the control-plane wire protocol carries it: public
/// fields, and a 32-bit port field.
#[derive(Debug)]
pub struct ControlBackend {
    pub hostname: String,
    pub redirect_ip: String,
    pub redirect_port: u32,
}

/// A routing record from its wire form; the wire's 32-bit port is
/// truncated to the 16 bits a TCP port has.
pub fn proxy_backend_from_tonic(backend: ControlBackend) -> (r: Backend)
    ensures
        r@.hostname == backend.hostname@,
        r@.redirect_ip == backend.redirect_ip@,
        r@.redirect_port == backend.redirect_port as u16,
{
    Backend::new(
        backend.hostname,
        backend.redirect_ip,
        #[verifier::truncate] (backend.redirect_port as u16),
    )
}

/// The wire form of a routing record.
pub fn tonic_backend_from_proxy(backend: Backend) -> (r: ControlBackend)
    ensures
        r.hostname@ == backend@.hostname,
        r.redirect_ip@ == backend@.redirect_ip,
        r.redirect_port == backend@.redirect_port as u32,
{
    ControlBackend {
        hostname: String::from_str(backend.hostname()),
        redirect_ip: String::from_str(backend.redirect_ip()),
        redirect_port: backend.redirect_port() as u32,
    }
}

/// Why a control operation got no answer from the event loop.
#[derive(Debug, Clone, Copy, PartialEq, Eq, Structural)]
pub enum ControlError {
    /// The mailbox refused the event.
    MailboxSendFailed,
    /// The reply channel died before an answer came.
    ReplyChannelDropped,
}

/// The one message a control caller sees on any failure; the detailed
/// cause is only logged.
pub fn internal_error_status() -> (r: String)
    ensures
        r@ == "Internal server error"@,
{
    String::from_str("Internal server error")
}

/// The reply to a put request: success when the event loop answered,
/// the fixed internal-error status otherwise.
pub fn put_backend_response(reply: Result<(), ControlError>) -> (r: Result<(), String>)
    ensures
        match reply {
            Ok(_) => r is Ok,
            Err(_) => r matches Err(m) && m@ == "Internal server error"@,
        },
{
    match reply {
        Ok(_) => Ok(()),
        Err(_) => Err(internal_error_status()),
    }
}

/// The reply to a delete request, shaped exactly as a put's.
pub fn delete_backend_response(reply: Result<(), ControlError>) -> (r: Result<(), String>)
    ensures
        match reply {
            Ok(_) => r is Ok,
            Err(_) => r matches Err(m) && m@ == "Internal server error"@,
        },
{
    match reply {
        Ok(_) => Ok(()),
        Err(_) => Err(internal_error_status()),
    }
}

/// The reply to a list request: every backend of the snapshot in wire
/// form, in the snapshot's order, or the fixed internal-error status.
pub fn list_backend_response(reply: Result<Vec<Backend>, ControlError>) -> (r: Result<
    Vec<ControlBackend>,
    String,
>)
    ensures
        match reply {
            Ok(bs) => {
                &&& r matches Ok(cs)
                &&& cs@.len() == bs@.len()
                &&& forall|i: int|
                    0 <= i < bs@.len() ==> {
                        &&& (#[trigger] cs@[i]).hostname@ == bs@[i]@.hostname
                        &&& cs@[i].redirect_ip@ == bs@[i]@.redirect_ip
                        &&& cs@[i].redirect_port == bs@[i]@.redirect_port as u32
                    }
            },
            Err(_) => r matches Err(m) && m@ == "Internal server error"@,
        },
{
    match reply {
        Ok(bs) => {
            let mut out: Vec<ControlBackend> = Vec::new();
            let mut i: usize = 0;
            while i < bs.len()
                invariant
                    i <= bs@.len(),
                    out@.len() == i,
                    forall|j: int|
                        0 <= j < i ==> {
                            &&& (#[trigger] out@[j]).hostname@ == bs@[j]@.hostname
                            &&& out@[j].redirect_ip@ == bs@[j]@.redirect_ip
                            &&& out@[j].redirect_port == bs@[j]@.redirect_port as u32
                        },
                decreases bs@.len() - i,
            {
                let e: &Backend = &bs[i];
                out.push(tonic_backend_from_proxy(e.clone()));
                i += 1;
            }
            Ok(out)
        },
        Err(_) => Err(internal_error_status()),
    }
}

} // verus!
