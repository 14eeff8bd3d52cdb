//! The gateway itself: where it listens, what it starts with, and what it
//! answers.

use crate::config::Config;
use crate::config::ConfigError;
use crate::dispatch::Dispatch;
use crate::pool::ThreadPool;
use crate::response::build_response;
use crate::response::decimal;
use crate::response::lemma_decimal_is_canonical;
use crate::response::lemma_fixed_parts;
use crate::response::push_decimal;
use crate::response::response;
use vstd::prelude::*;
use vstd::string::StringSliceAdditionalSpecFns;
use vstd::utf8::encode_utf8;
use vstd::utf8::is_ascii_chars;
use vstd::utf8::is_ascii_chars_encode_utf8;

verus! {

/// The gateway: a configuration and a name.
#[derive(Debug)]
pub struct WebVPN {
    pub config: Config,
    pub name: String,
}

/// What a gateway starts with: the address to listen on and a pool of idle
/// workers.
pub struct Launch<T> {
    pub address: String,
    pub pool: ThreadPool<T>,
}

/// The address on which a gateway with port `port` listens: every interface
/// of the machine, then a colon, then the port in decimal.
pub open spec fn bind_address(port: nat) -> Seq<char> {
    "0.0.0.0:"@ + decimal(port).map_values(|digit: u8| digit as char)
}

/// The body of every answer.
pub open spec fn greeting() -> Seq<char> {
    "haha"@
}

/// The text of one decimal digit, given as its ASCII byte.
fn digit_text(digit: u8) -> (text: &'static str)
    requires
        48 <= digit <= 57,
    ensures
        text@ == seq![digit as char],
{
    proof {
        reveal_strlit("0");
        reveal_strlit("1");
        reveal_strlit("2");
        reveal_strlit("3");
        reveal_strlit("4");
        reveal_strlit("5");
        reveal_strlit("6");
        reveal_strlit("7");
        reveal_strlit("8");
        reveal_strlit("9");
    }
    let text = match digit {
        48 => "0",
        49 => "1",
        50 => "2",
        51 => "3",
        52 => "4",
        53 => "5",
        54 => "6",
        55 => "7",
        56 => "8",
        _ => "9",
    };
    assert(text@ =~= seq![digit as char]);
    text
}

impl WebVPN {
    /// The address to listen on.
    pub fn address(&self) -> (text: String)
        ensures
            text@ == bind_address(self.config.port as nat),
    {
        let mut digits: Vec<u8> = Vec::new();
        push_decimal(&mut digits, self.config.port as usize);
        let mut text = "0.0.0.0:".to_owned();
        let mut at: usize = 0;
        proof {
            lemma_decimal_is_canonical(self.config.port as nat);
        }
        while at < digits.len()
            invariant
                at <= digits@.len(),
                digits@ == decimal(self.config.port as nat),
                forall|i: int| 0 <= i < digits@.len() ==> 48 <= #[trigger] digits@[i] <= 57,
                text@ == "0.0.0.0:"@ + digits@.take(at as int).map_values(|digit: u8| digit as char),
            decreases digits@.len() - at,
        {
            text.append(digit_text(digits[at]));
            proof {
                assert(digits@.take(at + 1).map_values(|digit: u8| digit as char)
                    =~= digits@.take(at as int).map_values(|digit: u8| digit as char).push(
                    digits@[at as int] as char,
                ));
            }
            at = at + 1;
        }
        proof {
            assert(digits@.take(at as int) =~= digits@);
        }
        text
    }

    /// Makes ready to serve: checks the configuration and, if it is valid,
    /// gives the address to listen on and a pool of as many idle workers as
    /// the configuration asks for. With an invalid configuration nothing is
    /// made.
    pub fn start<T>(&self) -> (launch: Result<Launch<T>, ConfigError>)
        ensures
            match launch {
                Ok(made) => {
                    &&& self.config.valid()
                    &&& made.address@ == bind_address(self.config.port as nat)
                    &&& made.pool.wf()
                    &&& made.pool@ == Dispatch::<T>::initial(self.config.num_processes as nat)
                },
                Err(e) => self.config.fault() == Err::<(), ConfigError>(e),
            },
    {
        match self.config.check() {
            Err(e) => Err(e),
            Ok(()) => match ThreadPool::new(self.config.num_processes) {
                Ok(pool) => Ok(Launch { address: self.address(), pool }),
                Err(_) => Err(ConfigError::NoWorkers),
            },
        }
    }

    /// The answer to a connection, whatever was received on it: always the
    /// response that carries the greeting.
    pub fn route(&self) -> (out: Vec<u8>)
        ensures
            out@ == response(encode_utf8(greeting())),
            out@ == "HTTP/1.1 200 OK\r\nContent-Length: 4\r\n\r\nhaha".spec_bytes(),
    {
        let out = self.respond("haha".to_owned());
        proof {
            let whole = "HTTP/1.1 200 OK\r\nContent-Length: 4\r\n\r\nhaha";
            reveal_strlit("haha");
            reveal_strlit("HTTP/1.1 200 OK\r\nContent-Length: 4\r\n\r\nhaha");
            lemma_fixed_parts();
            assert(is_ascii_chars("haha"@));
            assert(is_ascii_chars(whole@));
            is_ascii_chars_encode_utf8("haha"@);
            is_ascii_chars_encode_utf8(whole@);
            assert(decimal(4) =~= seq![52u8]);
            assert(out@ =~= whole.spec_bytes());
        }
        out
    }

    /// The response that carries `text`: the status line, the length of
    /// `text` in bytes, a blank line, and the bytes of `text`.
    pub fn respond(&self, text: String) -> (out: Vec<u8>)
        ensures
            out@ == response(encode_utf8(text@)),
    {
        build_response(text.as_str().as_bytes())
    }
}

} // verus!
