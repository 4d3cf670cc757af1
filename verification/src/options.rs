//! `option` directives and timeout settings attached to the `defaults`,
//! `frontend` and `backend` sections. Timeouts are held in milliseconds.

use vstd::prelude::*;
use vstd::string::StrSliceExecFns;
use vstd::string::StringSliceAdditionalSpecFns;
use crate::scan;
use crate::health;
use crate::config::ConfigError;

verus! {

#[derive(Debug, Clone)]
pub struct Options {
    pub http_options: HttpOptions,
    pub tcp_options: TcpOptions,
    pub general_options: GeneralOptions,
}

#[derive(Debug, Clone)]
pub struct HttpOptions {
    pub httpchk: Option<HttpCheck>,
    pub http_keep_alive_timeout: Option<u64>,
    pub dontlognull: bool,
    pub logasap: bool,
}

#[derive(Debug, Clone)]
pub struct TcpOptions {
    pub clitcpka: bool,
    pub tcp_check: bool,
    pub tcp_check_connect: bool,
    pub retries: Option<u32>,
}

#[derive(Debug, Clone)]
pub struct GeneralOptions {
    pub timeout_connect: Option<u64>,
    pub timeout_client: Option<u64>,
    pub timeout_server: Option<u64>,
    pub timeout_queue: Option<u64>,
}

#[derive(Debug, Clone)]
pub struct HttpCheck {
    pub method: String,
    pub path: String,
    pub headers: Vec<(String, String)>,
}

/// The mathematical content of an `Options` value: every flag and timeout,
/// with the health-check method and path as character sequences.
pub ghost struct OptionsV {
    pub httpchk: Option<(Seq<char>, Seq<char>)>,
    pub http_keep_alive_timeout: Option<u64>,
    pub dontlognull: bool,
    pub logasap: bool,
    pub clitcpka: bool,
    pub tcp_check: bool,
    pub tcp_check_connect: bool,
    pub retries: Option<u32>,
    pub timeout_connect: Option<u64>,
    pub timeout_client: Option<u64>,
    pub timeout_server: Option<u64>,
    pub timeout_queue: Option<u64>,
}

impl View for Options {
    type V = OptionsV;

    open spec fn view(&self) -> OptionsV {
        OptionsV {
            httpchk: match self.http_options.httpchk {
                Some(hc) => Some((hc.method@, hc.path@)),
                None => None,
            },
            http_keep_alive_timeout: self.http_options.http_keep_alive_timeout,
            dontlognull: self.http_options.dontlognull,
            logasap: self.http_options.logasap,
            clitcpka: self.tcp_options.clitcpka,
            tcp_check: self.tcp_options.tcp_check,
            tcp_check_connect: self.tcp_options.tcp_check_connect,
            retries: self.tcp_options.retries,
            timeout_connect: self.general_options.timeout_connect,
            timeout_client: self.general_options.timeout_client,
            timeout_server: self.general_options.timeout_server,
            timeout_queue: self.general_options.timeout_queue,
        }
    }
}

impl OptionsV {
    /// The defaults an options block starts from: tcp keep-alives off,
    /// `dontlognull` on, three retries, 5 s connect and 50 s idle timeouts.
    pub open spec fn init() -> OptionsV {
        OptionsV {
            httpchk: None,
            http_keep_alive_timeout: None,
            dontlognull: true,
            logasap: false,
            clitcpka: false,
            tcp_check: false,
            tcp_check_connect: false,
            retries: Some(3),
            timeout_connect: Some(5000),
            timeout_client: Some(50000),
            timeout_server: Some(50000),
            timeout_queue: Some(10000),
        }
    }
}

impl Default for Options {
    fn default() -> (r: Options)
        ensures
            r@ == OptionsV::init(),
    {
        Options {
            http_options: HttpOptions::default(),
            tcp_options: TcpOptions::default(),
            general_options: GeneralOptions::default(),
        }
    }
}

impl Default for HttpOptions {
    fn default() -> (r: HttpOptions)
        ensures
            r.httpchk is None,
            r.http_keep_alive_timeout is None,
            r.dontlognull == true,
            r.logasap == false,
    {
        HttpOptions {
            httpchk: None,
            http_keep_alive_timeout: None,
            dontlognull: true,
            logasap: false,
        }
    }
}

impl Default for TcpOptions {
    fn default() -> (r: TcpOptions)
        ensures
            r.clitcpka == false,
            r.tcp_check == false,
            r.tcp_check_connect == false,
            r.retries == Some(3u32),
    {
        TcpOptions { clitcpka: false, tcp_check: false, tcp_check_connect: false, retries: Some(3) }
    }
}

impl Default for GeneralOptions {
    fn default() -> (r: GeneralOptions)
        ensures
            r.timeout_connect == Some(5000u64),
            r.timeout_client == Some(50000u64),
            r.timeout_server == Some(50000u64),
            r.timeout_queue == Some(10000u64),
    {
        GeneralOptions {
            timeout_connect: Some(5000),
            timeout_client: Some(50000),
            timeout_server: Some(50000),
            timeout_queue: Some(10000),
        }
    }
}

/// The check an `httpchk` line with these tokens asks for: method and path
/// from the line, or `GET /` when fewer than three tokens are present.
/// `None` when the method or path token is not ASCII.
pub open spec fn spec_httpchk_of(tokens: Seq<Seq<u8>>) -> Option<(Seq<char>, Seq<char>)> {
    if tokens.len() >= 3 {
        if scan::all_ascii(tokens[1]) && scan::all_ascii(tokens[2]) {
            Some((scan::ascii_view(tokens[1]), scan::ascii_view(tokens[2])))
        } else {
            None
        }
    } else {
        Some(("GET"@, "/"@))
    }
}

/// How one tokenized `option` line changes an options block. Unknown
/// options change nothing; `httpchk` applies only in http mode.
pub open spec fn spec_apply_option(v: OptionsV, tokens: Seq<Seq<u8>>, http_mode: bool) -> OptionsV {
    if tokens.len() == 0 || !scan::all_ascii(tokens[0]) {
        v
    } else if scan::ascii_view(tokens[0]) == "httpchk"@ {
        if http_mode && spec_httpchk_of(tokens) is Some {
            OptionsV { httpchk: spec_httpchk_of(tokens), ..v }
        } else {
            v
        }
    } else if scan::ascii_view(tokens[0]) == "dontlognull"@ {
        OptionsV { dontlognull: true, ..v }
    } else if scan::ascii_view(tokens[0]) == "logasap"@ {
        OptionsV { logasap: true, ..v }
    } else if scan::ascii_view(tokens[0]) == "clitcpka"@ {
        OptionsV { clitcpka: true, ..v }
    } else if scan::ascii_view(tokens[0]) == "tcp-check"@ {
        OptionsV {
            tcp_check: true,
            tcp_check_connect: v.tcp_check_connect || (tokens.len() > 1 && scan::all_ascii(
                tokens[1],
            ) && scan::ascii_view(tokens[1]) == "connect"@),
            ..v
        }
    } else {
        v
    }
}

/// The options block after applying a whole list of `option` lines in order.
pub open spec fn spec_apply_options(v: OptionsV, lines: Seq<Seq<u8>>, http_mode: bool) -> OptionsV
    decreases lines.len(),
{
    if lines.len() == 0 {
        v
    } else {
        spec_apply_option(
            spec_apply_options(v, lines.drop_last(), http_mode),
            scan::spec_tokens(lines.last()),
            http_mode,
        )
    }
}

/// The byte text of each of a list of strings.
pub open spec fn spec_lines_of(options: Seq<String>) -> Seq<Seq<u8>> {
    options.map_values(|s: String| vstd::utf8::encode_utf8(s@))
}

impl Options {
    /// Build an `Options` from the `option` lines of a section, starting from
    /// the defaults. `mode` decides whether http-only options apply.
    pub fn from_strings(options: &[String], mode: &str) -> (r: Result<Options, ConfigError>)
        ensures
            r matches Ok(o) && o@ == spec_apply_options(
                OptionsV::init(),
                spec_lines_of(options@),
                mode@ == "http"@,
            ),
    {
        let mut opts = Options::default();
        let http_mode = scan::str_eq(mode, "http");
        let ghost all_lines = spec_lines_of(options@);
        let mut i: usize = 0;
        while i < options.len()
            invariant
                i <= options.len(),
                all_lines == spec_lines_of(options@),
                http_mode == (mode@ == "http"@),
                opts@ == spec_apply_options(OptionsV::init(), all_lines.take(i as int), http_mode),
            decreases options.len() - i,
        {
            Options::parse_option(options[i].as_str(), &mut opts, http_mode);
            proof {
                assert(all_lines.take(i + 1).drop_last() =~= all_lines.take(i as int));
                assert(all_lines.take(i + 1).last() == vstd::utf8::encode_utf8(
                    options@[i as int]@,
                ));
            }
            i += 1;
        }
        proof {
            assert(all_lines.take(i as int) =~= all_lines);
        }
        Ok(opts)
    }

    /// Apply one `option` line.
    pub fn parse_option(option: &str, opts: &mut Options, http_mode: bool)
        ensures
            final(opts)@ == spec_apply_option(
                old(opts)@,
                scan::spec_tokens(option.spec_bytes()),
                http_mode,
            ),
    {
        let bytes = option.as_bytes_vec();
        let tokens = scan::split_ws(bytes.as_slice());
        let ghost toks = scan::spec_tokens(option.spec_bytes());
        proof {
            assert(tokens.deep_view() == toks);
        }
        if tokens.len() == 0 {
            return ;
        }
        let t0 = &tokens[0];
        proof {
            assert(t0@ == toks[0]);
        }
        if !scan::check_ascii(t0.as_slice()) {
            return ;
        }
        if scan::token_is(t0.as_slice(), "httpchk") {
            if http_mode {
                match Options::parse_httpchk_tokens(&tokens) {
                    Some(hc) => {
                        opts.http_options.httpchk = Some(hc);
                    },
                    None => {},
                }
            }
        } else if scan::token_is(t0.as_slice(), "dontlognull") {
            opts.http_options.dontlognull = true;
        } else if scan::token_is(t0.as_slice(), "logasap") {
            opts.http_options.logasap = true;
        } else if scan::token_is(t0.as_slice(), "clitcpka") {
            opts.tcp_options.clitcpka = true;
        } else if scan::token_is(t0.as_slice(), "tcp-check") {
            opts.tcp_options.tcp_check = true;
            if tokens.len() > 1 {
                let t1 = &tokens[1];
                proof {
                    assert(t1@ == toks[1]);
                }
                if scan::check_ascii(t1.as_slice()) && scan::token_is(t1.as_slice(), "connect") {
                    opts.tcp_options.tcp_check_connect = true;
                }
            }
        }
    }

    /// The check named by an `httpchk` line, when its tokens allow one.
    fn parse_httpchk_tokens(tokens: &Vec<Vec<u8>>) -> (r: Option<HttpCheck>)
        ensures
            match r {
                Some(hc) => spec_httpchk_of(tokens.deep_view()) == Some((hc.method@, hc.path@))
                    && hc.headers@.len() == 0,
                None => spec_httpchk_of(tokens.deep_view()) is None,
            },
    {
        if tokens.len() >= 3 {
            let m = &tokens[1];
            let p = &tokens[2];
            proof {
                assert(m@ == tokens.deep_view()[1]);
                assert(p@ == tokens.deep_view()[2]);
            }
            if scan::check_ascii(m.as_slice()) && scan::check_ascii(p.as_slice()) {
                let method = scan::ascii_to_string(vstd::slice::slice_to_vec(m.as_slice()));
                let path = scan::ascii_to_string(vstd::slice::slice_to_vec(p.as_slice()));
                Some(HttpCheck { method, path, headers: Vec::new() })
            } else {
                None
            }
        } else {
            proof {
                reveal_strlit("GET");
                reveal_strlit("/");
                vstd::utf8::is_ascii_chars_encode_utf8("GET"@);
                vstd::utf8::is_ascii_chars_encode_utf8("/"@);
                assert(scan::all_ascii("GET".spec_bytes()));
                assert(scan::all_ascii("/".spec_bytes()));
                assert(scan::ascii_view("GET".spec_bytes()) =~= "GET"@);
                assert(scan::ascii_view("/".spec_bytes()) =~= "/"@);
            }
            let method = scan::ascii_to_string(vstd::slice::slice_to_vec("GET".as_bytes()));
            let path = scan::ascii_to_string(vstd::slice::slice_to_vec("/".as_bytes()));
            Some(HttpCheck { method, path, headers: Vec::new() })
        }
    }

    /// Parse a timeout value with a duration suffix into milliseconds.
    pub fn parse_timeout(timeout_str: &str) -> (r: Result<u64, ConfigError>)
        ensures
            match health::spec_duration_ms(timeout_str.spec_bytes()) {
                Some(ms) => r == Ok::<u64, ConfigError>(ms),
                None => r is Err,
            },
    {
        let bytes = timeout_str.as_bytes_vec();
        match health::parse_duration(bytes.as_slice()) {
            Some(ms) => Ok(ms),
            None => Err(ConfigError::InvalidDuration),
        }
    }

    /// The options block after setting one timeout field; unknown field
    /// names change nothing.
    pub open spec fn spec_timeout_applied(v: OptionsV, kind: Seq<char>, ms: u64) -> OptionsV {
        if kind == "connect"@ {
            OptionsV { timeout_connect: Some(ms), ..v }
        } else if kind == "client"@ {
            OptionsV { timeout_client: Some(ms), ..v }
        } else if kind == "server"@ {
            OptionsV { timeout_server: Some(ms), ..v }
        } else if kind == "queue"@ {
            OptionsV { timeout_queue: Some(ms), ..v }
        } else if kind == "http-keep-alive"@ {
            OptionsV { http_keep_alive_timeout: Some(ms), ..v }
        } else {
            v
        }
    }

    /// Set the timeout field named by `timeout_type`; unknown names are
    /// ignored, an unparsable value is an error and changes nothing.
    pub fn apply_timeout(&mut self, timeout_type: &str, value: &str) -> (r: Result<
        (),
        ConfigError,
    >)
        ensures
            match health::spec_duration_ms(value.spec_bytes()) {
                Some(ms) => r is Ok && final(self)@ == Options::spec_timeout_applied(
                    old(self)@,
                    timeout_type@,
                    ms,
                ),
                None => r is Err && *final(self) == *old(self),
            },
    {
        let ms = match Options::parse_timeout(value) {
            Ok(ms) => ms,
            Err(e) => {
                return Err(e);
            },
        };
        if scan::str_eq(timeout_type, "connect") {
            self.general_options.timeout_connect = Some(ms);
        } else if scan::str_eq(timeout_type, "client") {
            self.general_options.timeout_client = Some(ms);
        } else if scan::str_eq(timeout_type, "server") {
            self.general_options.timeout_server = Some(ms);
        } else if scan::str_eq(timeout_type, "queue") {
            self.general_options.timeout_queue = Some(ms);
        } else if scan::str_eq(timeout_type, "http-keep-alive") {
            self.http_options.http_keep_alive_timeout = Some(ms);
        }
        Ok(())
    }

    /// The connect timeout in milliseconds, defaulting to 5 seconds.
    pub fn get_connect_timeout(&self) -> (r: u64)
        ensures
            r == (match self@.timeout_connect {
                Some(ms) => ms,
                None => 5000u64,
            }),
    {
        match self.general_options.timeout_connect {
            Some(ms) => ms,
            None => 5000,
        }
    }

    /// The client-side idle timeout in milliseconds, defaulting to 50 seconds.
    pub fn get_client_timeout(&self) -> (r: u64)
        ensures
            r == (match self@.timeout_client {
                Some(ms) => ms,
                None => 50000u64,
            }),
    {
        match self.general_options.timeout_client {
            Some(ms) => ms,
            None => 50000,
        }
    }

    /// The server-side idle timeout in milliseconds, defaulting to 50 seconds.
    pub fn get_server_timeout(&self) -> (r: u64)
        ensures
            r == (match self@.timeout_server {
                Some(ms) => ms,
                None => 50000u64,
            }),
    {
        match self.general_options.timeout_server {
            Some(ms) => ms,
            None => 50000,
        }
    }

    /// The queue timeout in milliseconds, defaulting to 10 seconds.
    pub fn get_queue_timeout(&self) -> (r: u64)
        ensures
            r == (match self@.timeout_queue {
                Some(ms) => ms,
                None => 10000u64,
            }),
    {
        match self.general_options.timeout_queue {
            Some(ms) => ms,
            None => 10000,
        }
    }
}

} // verus!
