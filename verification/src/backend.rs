//! A routing record: the virtual host a client types, and the address of
//! the downstream server that should receive it.

use vstd::prelude::*;

verus! {

use vstd::string::StringExecFns;

/// The mathematical content of a backend record.
pub struct BackendV {
    pub hostname: Seq<char>,
    pub redirect_ip: Seq<char>,
    pub redirect_port: u16,
}

/// A backend: a downstream Minecraft server the proxy can connect to,
/// keyed by the virtual host that routes to it.
#[derive(Debug)]
pub struct Backend {
    hostname: String,
    redirect_ip: String,
    redirect_port: u16,
}

impl Clone for Backend {
    /// An equal copy of the record.
    fn clone(&self) -> (r: Self)
        ensures
            r == *self,
    {
        Backend {
            hostname: self.hostname.clone(),
            redirect_ip: self.redirect_ip.clone(),
            redirect_port: self.redirect_port,
        }
    }
}

impl View for Backend {
    type V = BackendV;

    closed spec fn view(&self) -> BackendV {
        BackendV {
            hostname: self.hostname@,
            redirect_ip: self.redirect_ip@,
            redirect_port: self.redirect_port,
        }
    }
}

/// The decimal digit character of a value below ten.
pub open spec fn digit_char(d: int) -> char {
    if d == 0 {
        '0'
    } else if d == 1 {
        '1'
    } else if d == 2 {
        '2'
    } else if d == 3 {
        '3'
    } else if d == 4 {
        '4'
    } else if d == 5 {
        '5'
    } else if d == 6 {
        '6'
    } else if d == 7 {
        '7'
    } else if d == 8 {
        '8'
    } else {
        '9'
    }
}

/// The decimal digits of a number, most significant first, with no
/// leading zeros (a single zero for zero itself).
pub open spec fn dec_chars(n: nat) -> Seq<char>
    decreases n,
{
    if n < 10 {
        seq![digit_char(n as int)]
    } else {
        dec_chars(n / 10) + seq![digit_char((n % 10) as int)]
    }
}

/// The dial address of a backend: its address literal, a colon, and its
/// port in decimal.
pub open spec fn spec_addr(b: BackendV) -> Seq<char> {
    b.redirect_ip + seq![':'] + dec_chars(b.redirect_port as nat)
}

fn digit_str(d: u16) -> (r: &'static str)
    requires
        d < 10,
    ensures
        r@ == seq![digit_char(d as int)],
{
    match d {
        0 => {
            proof {
                reveal_strlit("0");
            }
            let r = "0";
            assert(r@ =~= seq![digit_char(0)]);
            r
        },
        1 => {
            proof {
                reveal_strlit("1");
            }
            let r = "1";
            assert(r@ =~= seq![digit_char(1)]);
            r
        },
        2 => {
            proof {
                reveal_strlit("2");
            }
            let r = "2";
            assert(r@ =~= seq![digit_char(2)]);
            r
        },
        3 => {
            proof {
                reveal_strlit("3");
            }
            let r = "3";
            assert(r@ =~= seq![digit_char(3)]);
            r
        },
        4 => {
            proof {
                reveal_strlit("4");
            }
            let r = "4";
            assert(r@ =~= seq![digit_char(4)]);
            r
        },
        5 => {
            proof {
                reveal_strlit("5");
            }
            let r = "5";
            assert(r@ =~= seq![digit_char(5)]);
            r
        },
        6 => {
            proof {
                reveal_strlit("6");
            }
            let r = "6";
            assert(r@ =~= seq![digit_char(6)]);
            r
        },
        7 => {
            proof {
                reveal_strlit("7");
            }
            let r = "7";
            assert(r@ =~= seq![digit_char(7)]);
            r
        },
        8 => {
            proof {
                reveal_strlit("8");
            }
            let r = "8";
            assert(r@ =~= seq![digit_char(8)]);
            r
        },
        _ => {
            proof {
                reveal_strlit("9");
            }
            let r = "9";
            assert(r@ =~= seq![digit_char(9)]);
            r
        },
    }
}

/// The decimal form of a number, most significant digit first.
fn dec_string(n: u16) -> (r: String)
    ensures
        r@ == dec_chars(n as nat),
    decreases n,
{
    if n < 10 {
        String::from_str(digit_str(n))
    } else {
        let mut s = dec_string(n / 10);
        s.append(digit_str(n % 10));
        s
    }
}

impl Backend {
    /// A backend from its routing key and dial coordinates.
    pub fn new(hostname: String, redirect_ip: String, redirect_port: u16) -> (r: Self)
        ensures
            r@.hostname == hostname@,
            r@.redirect_ip == redirect_ip@,
            r@.redirect_port == redirect_port,
    {
        Self { hostname, redirect_ip, redirect_port }
    }

    /// The virtual host that routes to this backend.
    pub fn hostname(&self) -> (r: &str)
        ensures
            r@ == self@.hostname,
    {
        self.hostname.as_str()
    }

    /// The host or IP literal the proxy dials.
    pub fn redirect_ip(&self) -> (r: &str)
        ensures
            r@ == self@.redirect_ip,
    {
        self.redirect_ip.as_str()
    }

    /// The port the proxy dials.
    pub fn redirect_port(&self) -> (r: u16)
        ensures
            r == self@.redirect_port,
    {
        self.redirect_port
    }

    /// The dial address: `redirect_ip`, a colon, and `redirect_port` in
    /// decimal.
    pub fn addr(&self) -> (r: String)
        ensures
            r@ == spec_addr(self@),
    {
        proof {
            reveal_strlit(":");
        }
        let mut s = self.redirect_ip.clone();
        s.append(":");
        let ds = dec_string(self.redirect_port);
        s.append(ds.as_str());
        proof {
            assert(":"@ =~= seq![':']);
        }
        s
    }
}

} // verus!
