//! The permessage-deflate extension: negotiation, the per-message
//! compression lifecycle, and the codec that applies it around the frame
//! layer.
use vstd::prelude::*;

use crate::codec::{decode_post, BufferStream, FrameCodec, FrameConfig, ValidateUtf8Policy};
use crate::errors::{ProtocolError, WsError};
use crate::frame::{fin_of, key_of, masked_of, opcode_of, rsv1_of, OpCode, OwnedFrame};
use crate::protocol::{
    standard_handshake_resp_check, HandshakeRequest, HandshakeResponse, resp_check_ok,
};

verus! {

use vstd::string::{StringExecFns, StringSliceAdditionalSpecFns, StrSliceExecFns};

/// A DEFLATE window size, 2^8 through 2^15 bytes.
#[derive(Debug, Clone, Copy, PartialEq, Eq, Structural)]
pub enum WindowBit {
    /// window bits 8
    Eight,
    /// window bits 9
    Nine,
    /// window bits 10
    Ten,
    /// window bits 11
    Eleven,
    /// window bits 12
    Twelve,
    /// window bits 13
    Thirteen,
    /// window bits 14
    Fourteen,
    /// window bits 15
    Fifteen,
}

impl WindowBit {
    /// The number of window bits this stands for.
    pub open spec fn spec_u8(self) -> u8 {
        match self {
            WindowBit::Eight => 8,
            WindowBit::Nine => 9,
            WindowBit::Ten => 10,
            WindowBit::Eleven => 11,
            WindowBit::Twelve => 12,
            WindowBit::Thirteen => 13,
            WindowBit::Fourteen => 14,
            WindowBit::Fifteen => 15,
        }
    }

    /// The number of window bits this stands for.
    pub fn as_u8(&self) -> (r: u8)
        ensures
            r == self.spec_u8(),
    {
        match self {
            WindowBit::Eight => 8,
            WindowBit::Nine => 9,
            WindowBit::Ten => 10,
            WindowBit::Eleven => 11,
            WindowBit::Twelve => 12,
            WindowBit::Thirteen => 13,
            WindowBit::Fourteen => 14,
            WindowBit::Fifteen => 15,
        }
    }

    /// The window size for a bit count in 8..=15.
    pub fn from_u8(v: u8) -> (r: Option<WindowBit>)
        ensures
            8 <= v <= 15 ==> (r matches Some(w) && w.spec_u8() == v),
            !(8 <= v <= 15) ==> r is None,
    {
        match v {
            8 => Some(WindowBit::Eight),
            9 => Some(WindowBit::Nine),
            10 => Some(WindowBit::Ten),
            11 => Some(WindowBit::Eleven),
            12 => Some(WindowBit::Twelve),
            13 => Some(WindowBit::Thirteen),
            14 => Some(WindowBit::Fourteen),
            15 => Some(WindowBit::Fifteen),
            _ => None,
        }
    }

    /// The decimal spelling of the bit count.
    pub fn as_str(&self) -> (r: &'static str)
        ensures
            r@ == self.spec_str(),
    {
        match self {
            WindowBit::Eight => "8",
            WindowBit::Nine => "9",
            WindowBit::Ten => "10",
            WindowBit::Eleven => "11",
            WindowBit::Twelve => "12",
            WindowBit::Thirteen => "13",
            WindowBit::Fourteen => "14",
            WindowBit::Fifteen => "15",
        }
    }

    /// The decimal spelling of the bit count.
    pub open spec fn spec_str(self) -> Seq<char> {
        match self {
            WindowBit::Eight => ("8")@,
            WindowBit::Nine => ("9")@,
            WindowBit::Ten => ("10")@,
            WindowBit::Eleven => ("11")@,
            WindowBit::Twelve => ("12")@,
            WindowBit::Thirteen => ("13")@,
            WindowBit::Fourteen => ("14")@,
            WindowBit::Fifteen => ("15")@,
        }
    }
}

/// The extension parameters a caller asks for.
#[derive(Debug, Clone, Copy)]
pub struct DeflateConfig {
    /// ask the server to forget its window after each message
    pub server_no_context_takeover: bool,
    /// offer to forget this side's window after each message
    pub client_no_context_takeover: bool,
    /// bound the server's window
    pub server_max_window_bits: Option<WindowBit>,
    /// bound this side's window
    pub client_max_window_bits: Option<WindowBit>,
}

impl Default for DeflateConfig {
    /// No flags, no window bounds.
    fn default() -> (r: Self)
        ensures
            !r.server_no_context_takeover,
            !r.client_no_context_takeover,
            r.server_max_window_bits is None,
            r.client_max_window_bits is None,
    {
        DeflateConfig {
            server_no_context_takeover: false,
            client_no_context_takeover: false,
            server_max_window_bits: None,
            client_max_window_bits: None,
        }
    }
}

/// The offer header a [`DeflateConfig`] is written as.
pub open spec fn spec_offer_header(c: DeflateConfig) -> Seq<char> {
    let base = ("permessage-deflate")@;
    let s1 = if c.server_no_context_takeover {
        base + ("; server_no_context_takeover")@
    } else {
        base
    };
    let s2 = if c.client_no_context_takeover {
        s1 + ("; client_no_context_takeover")@
    } else {
        s1
    };
    let s3 = match c.server_max_window_bits {
        Some(w) => s2 + ("; server_max_window_bits=")@ + w.spec_str(),
        None => s2,
    };
    match c.client_max_window_bits {
        Some(w) => s3 + ("; client_max_window_bits=")@ + w.spec_str(),
        None => s3,
    }
}

impl DeflateConfig {
    /// Write this configuration as a Sec-WebSocket-Extensions offer.
    pub fn build_header(&self) -> (r: String)
        ensures
            r@ == spec_offer_header(*self),
    {
        let mut out = String::from_str("permessage-deflate");
        if self.server_no_context_takeover {
            out.append("; server_no_context_takeover");
        }
        if self.client_no_context_takeover {
            out.append("; client_no_context_takeover");
        }
        if let Some(w) = self.server_max_window_bits {
            out.append("; server_max_window_bits=");
            out.append(w.as_str());
        }
        if let Some(w) = self.client_max_window_bits {
            out.append("; client_max_window_bits=");
            out.append(w.as_str());
        }
        out
    }
}

/// One negotiated permessage-deflate parameter set.
#[derive(Debug, Clone, Copy)]
pub struct PMDConfig {
    /// the server forgets its window after each message
    pub server_no_context_takeover: bool,
    /// the client forgets its window after each message
    pub client_no_context_takeover: bool,
    /// the server's window bits
    pub server_max_window_bits: u8,
    /// the client's window bits
    pub client_max_window_bits: u8,
}

impl PMDConfig {
    /// Window bits lie in the range the extension defines.
    pub open spec fn wf(self) -> bool {
        8 <= self.server_max_window_bits <= 15 && 8 <= self.client_max_window_bits <= 15
    }
}

impl Default for PMDConfig {
    /// Context takeover on both sides, full 15-bit windows.
    fn default() -> (r: Self)
        ensures
            r.wf(),
            !r.server_no_context_takeover,
            !r.client_no_context_takeover,
            r.server_max_window_bits == 15,
            r.client_max_window_bits == 15,
    {
        PMDConfig {
            server_no_context_takeover: false,
            client_no_context_takeover: false,
            server_max_window_bits: 15,
            client_max_window_bits: 15,
        }
    }
}

/// A space or horizontal tab, the whitespace the extension grammar allows
/// around its separators.
pub open spec fn is_ws(b: u8) -> bool {
    b == 32 || b == 9
}

/// Position of the first non-whitespace byte in `[from, to)`, or `to`.
pub open spec fn spec_ltrim(s: Seq<u8>, from: int, to: int) -> int
    decreases to - from,
    when from <= to
{
    if from >= to || !is_ws(s[from]) {
        from
    } else {
        spec_ltrim(s, from + 1, to)
    }
}

/// Position just past the last non-whitespace byte in `[from, to)`, or `from`.
pub open spec fn spec_rtrim(s: Seq<u8>, from: int, to: int) -> int
    decreases to - from,
    when from <= to
{
    if to <= from || !is_ws(s[to - 1]) {
        to
    } else {
        spec_rtrim(s, from, to - 1)
    }
}

/// A position with only whitespace before it, holding none itself, is where
/// the left trim stops.
proof fn lemma_ltrim_char(s: Seq<u8>, from: int, to: int, a: int)
    requires
        from <= a <= to,
        forall|j: int| from <= j < a ==> is_ws(s[j]),
        a == to || !is_ws(s[a]),
    ensures
        spec_ltrim(s, from, to) == a,
    decreases a - from,
{
    if from < a {
        lemma_ltrim_char(s, from + 1, to, a);
    }
}

/// A position with only whitespace after it, preceded by none, is where the
/// right trim stops.
proof fn lemma_rtrim_char(s: Seq<u8>, from: int, to: int, b: int)
    requires
        from <= b <= to,
        forall|j: int| b <= j < to ==> is_ws(s[j]),
        b == from || !is_ws(s[b - 1]),
    ensures
        spec_rtrim(s, from, to) == b,
    decreases to - b,
{
    if b < to {
        lemma_rtrim_char(s, from, to - 1, b);
    }
}

/// Split one semicolon- or comma-free region into its trimmed token,
/// returning its bounds.
fn trim_bounds(bytes: &[u8], from: usize, to: usize) -> (r: (usize, usize))
    requires
        from <= to <= bytes@.len(),
    ensures
        from <= r.0 <= r.1 <= to,
        r.0 == spec_ltrim(bytes@, from as int, to as int),
        r.1 == spec_rtrim(bytes@, r.0 as int, to as int),
{
    let mut a = from;
    let mut b = to;
    while a < b && (bytes[a] == 32 || bytes[a] == 9)
        invariant
            from <= a <= b <= to <= bytes@.len(),
            b == to,
            forall|j: int| from <= j < a ==> is_ws(bytes@[j]),
        decreases b - a,
    {
        a += 1;
    }
    proof {
        lemma_ltrim_char(bytes@, from as int, to as int, a as int);
    }
    while b > a && (bytes[b - 1] == 32 || bytes[b - 1] == 9)
        invariant
            from <= a <= b <= to <= bytes@.len(),
            forall|j: int| b <= j < to ==> is_ws(bytes@[j]),
        decreases b,
    {
        b -= 1;
    }
    proof {
        lemma_rtrim_char(bytes@, a as int, to as int, b as int);
    }
    (a, b)
}

/// The decimal value of a window-bits parameter: one or two digits.
pub open spec fn spec_window_value(s: Seq<u8>, from: int, to: int) -> Option<u8> {
    if to - from == 1 {
        if 48 <= s[from] <= 57 {
            Some((s[from] - 48) as u8)
        } else {
            None
        }
    } else if to - from == 2 {
        if 49 <= s[from] <= 57 && 48 <= s[from + 1] <= 57 {
            Some(((s[from] - 48) * 10 + (s[from + 1] - 48)) as u8)
        } else {
            None
        }
    } else {
        None
    }
}

/// Parse the decimal value of a window-bits parameter: one or two digits.
fn parse_window_value(bytes: &[u8], from: usize, to: usize) -> (r: Option<u8>)
    requires
        from <= to <= bytes@.len(),
    ensures
        r == spec_window_value(bytes@, from as int, to as int),
{
    if to - from == 1 {
        let d = bytes[from];
        if 48 <= d && d <= 57 {
            Some(d - 48)
        } else {
            None
        }
    } else if to - from == 2 {
        let d1 = bytes[from];
        let d2 = bytes[from + 1];
        if 49 <= d1 && d1 <= 57 && 48 <= d2 && d2 <= 57 {
            Some((d1 - 48) * 10 + (d2 - 48))
        } else {
            None
        }
    } else {
        None
    }
}


/// Index of the first `needle` in `[from, to)`, or `to` when there is none.
pub open spec fn spec_find(s: Seq<u8>, from: int, to: int, needle: u8) -> int
    decreases to - from,
    when from <= to
{
    if from >= to {
        to
    } else if s[from] == needle {
        from
    } else {
        spec_find(s, from + 1, to, needle)
    }
}

/// The first occurrence lies between the bounds.
proof fn lemma_spec_find_bounds(s: Seq<u8>, from: int, to: int, needle: u8)
    requires
        from <= to,
    ensures
        from <= spec_find(s, from, to, needle) <= to,
    decreases to - from,
{
    if from < to && s[from] != needle {
        lemma_spec_find_bounds(s, from + 1, to, needle);
    }
}

/// A position that carries the needle (or is the bound), with none before
/// it, is where the search stops.
proof fn lemma_find_char(s: Seq<u8>, from: int, to: int, needle: u8, r: int)
    requires
        from <= r <= to,
        r < to ==> s[r] == needle,
        forall|j: int| from <= j < r ==> s[j] != needle,
    ensures
        spec_find(s, from, to, needle) == r,
    decreases r - from,
{
    if from < r {
        lemma_find_char(s, from + 1, to, needle, r);
    }
}

/// Index of the first `needle` in `[from, to)`, or `to` when there is none.
fn find_byte(bytes: &[u8], from: usize, to: usize, needle: u8) -> (r: usize)
    requires
        from <= to <= bytes@.len(),
    ensures
        from <= r <= to,
        r < to ==> bytes@[r as int] == needle,
        forall|j: int| from <= j < r ==> bytes@[j] != needle,
        r == spec_find(bytes@, from as int, to as int, needle),
{
    let mut i = from;
    while i < to
        invariant
            from <= i <= to <= bytes@.len(),
            forall|j: int| from <= j < i ==> bytes@[j] != needle,
        decreases to - i,
    {
        if bytes[i] == needle {
            proof {
                lemma_find_char(bytes@, from as int, to as int, needle, i as int);
            }
            return i;
        }
        i += 1;
    }
    proof {
        lemma_find_char(bytes@, from as int, to as int, needle, to as int);
    }
    to
}


/// The parameter set every offer starts from: context takeover on both
/// sides, full windows.
pub open spec fn spec_default_pmd() -> PMDConfig {
    PMDConfig {
        server_no_context_takeover: false,
        client_no_context_takeover: false,
        server_max_window_bits: 15,
        client_max_window_bits: 15,
    }
}

/// The parameters of one permessage-deflate offer, folded over the
/// semicolon-separated chunks of `[j, seg_end)` starting from `conf`: each
/// chunk carries a known parameter name (trimmed, before any `=`), the two
/// takeover flags take no value, the window bounds take a decimal value in
/// 8..=15 (optional on the client bound); anything else refuses the offer.
pub open spec fn spec_parse_params(s: Seq<u8>, j: int, seg_end: int, conf: PMDConfig) -> Option<
    PMDConfig,
>
    decreases seg_end - j,
    when 0 <= j <= seg_end <= s.len()
    via spec_parse_params_dec
{
    if j >= seg_end {
        Some(conf)
    } else {
        let param_end = spec_find(s, j + 1, seg_end, 59);
        let eq_at = spec_find(s, j + 1, param_end, 61);
        let pa = spec_ltrim(s, j + 1, eq_at);
        let pb = spec_rtrim(s, pa, eq_at);
        let pname = s.subrange(pa, pb);
        if pname == crate::protocol::sb("server_no_context_takeover") && eq_at == param_end {
            spec_parse_params(
                s,
                param_end,
                seg_end,
                PMDConfig { server_no_context_takeover: true, ..conf },
            )
        } else if pname == crate::protocol::sb("client_no_context_takeover") && eq_at
            == param_end {
            spec_parse_params(
                s,
                param_end,
                seg_end,
                PMDConfig { client_no_context_takeover: true, ..conf },
            )
        } else if pname == crate::protocol::sb("server_max_window_bits") && eq_at < param_end {
            let va = spec_ltrim(s, eq_at + 1, param_end);
            let vb = spec_rtrim(s, va, param_end);
            match spec_window_value(s, va, vb) {
                Some(v) => if 8 <= v <= 15 {
                    spec_parse_params(
                        s,
                        param_end,
                        seg_end,
                        PMDConfig { server_max_window_bits: v, ..conf },
                    )
                } else {
                    None
                },
                None => None,
            }
        } else if pname == crate::protocol::sb("client_max_window_bits") {
            if eq_at < param_end {
                let va = spec_ltrim(s, eq_at + 1, param_end);
                let vb = spec_rtrim(s, va, param_end);
                match spec_window_value(s, va, vb) {
                    Some(v) => if 8 <= v <= 15 {
                        spec_parse_params(
                            s,
                            param_end,
                            seg_end,
                            PMDConfig { client_max_window_bits: v, ..conf },
                        )
                    } else {
                        None
                    },
                    None => None,
                }
            } else {
                spec_parse_params(s, param_end, seg_end, conf)
            }
        } else {
            None
        }
    }
}

#[via_fn]
proof fn spec_parse_params_dec(s: Seq<u8>, j: int, seg_end: int, conf: PMDConfig) {
    if 0 <= j < seg_end <= s.len() {
        lemma_spec_find_bounds(s, j + 1, seg_end, 59);
    }
}

/// The offers of a Sec-WebSocket-Extensions header value from position `i`
/// on: comma-separated segments, each contributing its parameter set when
/// its first trimmed token is the extension's name and being passed over
/// otherwise; one refused offer refuses the whole header.
pub open spec fn spec_parse_offers(s: Seq<u8>, i: int) -> Option<Seq<PMDConfig>>
    decreases s.len() - i,
    when 0 <= i <= s.len()
    via spec_parse_offers_dec
{
    let seg_end = spec_find(s, i, s.len() as int, 44);
    let first_sep = spec_find(s, i, seg_end, 59);
    let na = spec_ltrim(s, i, first_sep);
    let nb = spec_rtrim(s, na, first_sep);
    let rest = if seg_end == s.len() {
        Some(Seq::<PMDConfig>::empty())
    } else {
        spec_parse_offers(s, seg_end + 1)
    };
    if s.subrange(na, nb) == crate::protocol::sb("permessage-deflate") {
        match spec_parse_params(s, first_sep, seg_end, spec_default_pmd()) {
            Some(c) => match rest {
                Some(tail) => Some(seq![c] + tail),
                None => None,
            },
            None => None,
        }
    } else {
        rest
    }
}

#[via_fn]
proof fn spec_parse_offers_dec(s: Seq<u8>, i: int) {
    if 0 <= i <= s.len() {
        lemma_spec_find_bounds(s, i, s.len() as int, 44);
    }
}

impl PMDConfig {
    /// Parse a Sec-WebSocket-Extensions header value: a comma-separated
    /// list of offers, each a semicolon-separated list whose first token is
    /// the extension name. Offers for other extensions are passed over; a
    /// permessage-deflate offer with an unknown parameter or a window bound
    /// outside 8..=15 refuses the whole value. The result is exactly what
    /// [`spec_parse_offers`] reads out of the bytes, and every returned
    /// parameter set is well-formed.
    pub fn parse_str(s: &str) -> (r: Result<Vec<PMDConfig>, String>)
        ensures
            match r {
                Ok(cs) => spec_parse_offers(s.spec_bytes(), 0) == Some(cs@),
                Err(_) => spec_parse_offers(s.spec_bytes(), 0) is None,
            },
            r matches Ok(cs) ==> forall|k: int| 0 <= k < cs@.len() ==> (#[trigger] cs@[k]).wf(),
    {
        let bytes = s.as_bytes();
        let n = bytes.len();
        let mut configs: Vec<PMDConfig> = Vec::new();
        let mut i: usize = 0;
        proof {
            match spec_parse_offers(bytes@, 0) {
                Some(t) => {
                    assert(configs@ + t =~= t);
                },
                None => {},
            }
        }
        loop
            invariant_except_break
                ({
                    match spec_parse_offers(bytes@, i as int) {
                        Some(tail) => spec_parse_offers(bytes@, 0) == Some(configs@ + tail),
                        None => spec_parse_offers(bytes@, 0) is None,
                    }
                }),
            invariant
                i <= n,
                n == bytes@.len(),
                bytes@ == s.spec_bytes(),
                forall|k: int| 0 <= k < configs@.len() ==> (#[trigger] configs@[k]).wf(),
            ensures
                spec_parse_offers(bytes@, 0) == Some(configs@),
                forall|k: int| 0 <= k < configs@.len() ==> (#[trigger] configs@[k]).wf(),
            decreases n - i,
        {
            let ghost tail_i = spec_parse_offers(bytes@, i as int);
            let seg_end = find_byte(bytes, i, n, 44);
            let first_sep = find_byte(bytes, i, seg_end, 59);
            let (na, nb) = trim_bounds(bytes, i, first_sep);
            let name = vstd::slice::slice_subrange(bytes, na, nb);
            let ghost rest_i = if seg_end == n {
                Some(Seq::<PMDConfig>::empty())
            } else {
                spec_parse_offers(bytes@, seg_end + 1)
            };
            if crate::protocol::eq_bytes(name, "permessage-deflate".as_bytes()) {
                let mut conf = PMDConfig::default();
                assert(conf == spec_default_pmd());
                let mut j = first_sep;
                while j < seg_end
                    invariant
                        i <= first_sep <= j <= seg_end <= n,
                        n == bytes@.len(),
                        bytes@ == s.spec_bytes(),
                        conf.wf(),
                        spec_parse_params(bytes@, first_sep as int, seg_end as int, spec_default_pmd())
                            == spec_parse_params(bytes@, j as int, seg_end as int, conf),
                        seg_end == spec_find(bytes@, i as int, n as int, 44),
                        first_sep == spec_find(bytes@, i as int, seg_end as int, 59),
                        ({
                            let na2 = spec_ltrim(bytes@, i as int, first_sep as int);
                            let nb2 = spec_rtrim(bytes@, na2, first_sep as int);
                            bytes@.subrange(na2, nb2) == crate::protocol::sb("permessage-deflate")
                        }),
                        match spec_parse_offers(bytes@, i as int) {
                            Some(tail) => spec_parse_offers(bytes@, 0) == Some(configs@ + tail),
                            None => spec_parse_offers(bytes@, 0) is None,
                        },
                    decreases seg_end - j,
                {
                    let param_end = find_byte(bytes, j + 1, seg_end, 59);
                    let eq_at = find_byte(bytes, j + 1, param_end, 61);
                    let (pa, pb) = trim_bounds(bytes, j + 1, eq_at);
                    let pname = vstd::slice::slice_subrange(bytes, pa, pb);
                    if crate::protocol::eq_bytes(
                        pname,
                        "server_no_context_takeover".as_bytes(),
                    ) && eq_at == param_end {
                        conf.server_no_context_takeover = true;
                    } else if crate::protocol::eq_bytes(
                        pname,
                        "client_no_context_takeover".as_bytes(),
                    ) && eq_at == param_end {
                        conf.client_no_context_takeover = true;
                    } else if crate::protocol::eq_bytes(
                        pname,
                        "server_max_window_bits".as_bytes(),
                    ) && eq_at < param_end {
                        let (va, vb) = trim_bounds(bytes, eq_at + 1, param_end);
                        match parse_window_value(bytes, va, vb) {
                            Some(v) if 8 <= v && v <= 15 => {
                                conf.server_max_window_bits = v;
                            },
                            _ => {
                                proof {
                                    assert(spec_parse_params(
                                        bytes@,
                                        first_sep as int,
                                        seg_end as int,
                                        spec_default_pmd(),
                                    ) is None);
                                    lemma_parse_offers_refused(bytes@, i as int, seg_end as int);
                                }
                                return Err(String::from_str("invalid server_max_window_bits"));
                            },
                        }
                    } else if crate::protocol::eq_bytes(
                        pname,
                        "client_max_window_bits".as_bytes(),
                    ) {
                        if eq_at < param_end {
                            let (va, vb) = trim_bounds(bytes, eq_at + 1, param_end);
                            match parse_window_value(bytes, va, vb) {
                                Some(v) if 8 <= v && v <= 15 => {
                                    conf.client_max_window_bits = v;
                                },
                                _ => {
                                    proof {
                                        assert(spec_parse_params(
                                            bytes@,
                                            first_sep as int,
                                            seg_end as int,
                                            spec_default_pmd(),
                                        ) is None);
                                        lemma_parse_offers_refused(
                                            bytes@,
                                            i as int,
                                            seg_end as int,
                                        );
                                    }
                                    return Err(
                                        String::from_str("invalid client_max_window_bits"),
                                    );
                                },
                            }
                        }
                    } else {
                        proof {
                            assert(spec_parse_params(
                                bytes@,
                                first_sep as int,
                                seg_end as int,
                                spec_default_pmd(),
                            ) is None);
                            lemma_parse_offers_refused(bytes@, i as int, seg_end as int);
                        }
                        return Err(String::from_str("unknown permessage-deflate parameter"));
                    }
                    j = param_end;
                }
                proof {
                    assert(spec_parse_params(bytes@, j as int, seg_end as int, conf) == Some(
                        conf,
                    ));
                }
                let ghost configs0 = configs@;
                configs.push(conf);
                proof {
                    match rest_i {
                        Some(t) => {
                            assert(tail_i == Some(seq![conf] + t));
                            assert(configs0 + (seq![conf] + t) =~= configs@ + t);
                        },
                        None => {},
                    }
                }
            }
            if seg_end == n {
                proof {
                    assert(configs@ + Seq::<PMDConfig>::empty() =~= configs@);
                    match spec_parse_offers(bytes@, i as int) {
                        Some(tail) => {
                            assert(spec_parse_offers(bytes@, 0) matches Some(all) && all
                                =~= configs@);
                        },
                        None => {
                            assert(false);
                        },
                    }
                }
                break;
            }
            i = seg_end + 1;
        }
        Ok(configs)
    }
}

/// A segment whose parameters are refused refuses the whole header.
proof fn lemma_parse_offers_refused(s: Seq<u8>, i: int, seg_end: int)
    requires
        0 <= i <= s.len(),
        seg_end == spec_find(s, i, s.len() as int, 44),
        ({
            let first_sep = spec_find(s, i, seg_end, 59);
            let na = spec_ltrim(s, i, first_sep);
            let nb = spec_rtrim(s, na, first_sep);
            s.subrange(na, nb) == crate::protocol::sb("permessage-deflate")
                && spec_parse_params(s, first_sep, seg_end, spec_default_pmd()) is None
        }),
    ensures
        spec_parse_offers(s, i) is None,
{
}

#[verifier::external_type_specification]
#[verifier::external_body]
pub struct ExCompress(flate2::Compress);

#[verifier::external_type_specification]
#[verifier::external_body]
pub struct ExDecompress(flate2::Decompress);

/// Relies on flate2::Compress::new: a fresh raw-DEFLATE compressor, no
/// zlib header, an empty window.
#[verifier::external_body]
fn new_compress() -> flate2::Compress {
    flate2::Compress::new(flate2::Compression::fast(), false)
}

/// Relies on flate2::Decompress::new: a fresh raw-DEFLATE decompressor, no
/// zlib header.
#[verifier::external_body]
fn new_decompress() -> flate2::Decompress {
    flate2::Decompress::new(false)
}

/// Relies on flate2::Compress::total_in: how many input bytes the stream
/// has consumed so far.
#[verifier::external_body]
fn compress_total_in(c: &flate2::Compress) -> u64 {
    c.total_in()
}

/// Relies on flate2::Compress::compress_vec with a Sync flush: writes only
/// into the spare capacity of `out`, leaving the bytes already there alone.
#[verifier::external_body]
fn compress_step(c: &mut flate2::Compress, input: &[u8], out: &mut Vec<u8>) -> (r: Result<(), ()>)
    ensures
        final(out)@.len() >= old(out)@.len(),
        final(out)@.subrange(0, old(out)@.len() as int) == old(out)@,
{
    match c.compress_vec(input, out, flate2::FlushCompress::Sync) {
        Ok(_) => Ok(()),
        Err(_) => Err(()),
    }
}

/// Relies on flate2::Compress::reset: the stream returns to its initial
/// state with an empty window.
#[verifier::external_body]
fn compress_reset(c: &mut flate2::Compress) {
    c.reset()
}

/// Relies on flate2::Decompress::total_in: how many input bytes the stream
/// has consumed so far.
#[verifier::external_body]
fn decompress_total_in(d: &flate2::Decompress) -> u64 {
    d.total_in()
}

/// Relies on flate2::Decompress::decompress_vec with a Sync flush: writes
/// only into the spare capacity of `out`, leaving the bytes already there
/// alone; fails on a corrupt stream.
#[verifier::external_body]
fn decompress_step(d: &mut flate2::Decompress, input: &[u8], out: &mut Vec<u8>) -> (r: Result<
    (),
    (),
>)
    ensures
        final(out)@.len() >= old(out)@.len(),
        final(out)@.subrange(0, old(out)@.len() as int) == old(out)@,
{
    match d.decompress_vec(input, out, flate2::FlushDecompress::Sync) {
        Ok(_) => Ok(()),
        Err(_) => Err(()),
    }
}

/// Relies on flate2::Decompress::reset: the stream returns to its initial
/// state, still expecting raw DEFLATE.
#[verifier::external_body]
fn decompress_reset(d: &mut flate2::Decompress) {
    d.reset(false)
}

/// The send-side DEFLATE stream. The negotiated window bound travels in
/// the handshake header only; the backing stream runs its default window,
/// so a peer that negotiated a smaller bound relies on its inflater
/// keeping the usual full window, as the common ones do.
#[derive(Debug)]
pub struct Compressor {
    com: flate2::Compress,
}

impl Compressor {
    /// A fresh compressing stream.
    pub fn new(_size: WindowBit) -> Compressor {
        Compressor { com: new_compress() }
    }

    /// Compress `input`, appending the compressed stream, closed by a sync
    /// flush, to `output`. The bytes already in `output` are left alone.
    pub fn compress(&mut self, input: &[u8], output: &mut Vec<u8>) -> (r: Result<(), WsError>)
        ensures
            final(output)@.len() >= old(output)@.len(),
            final(output)@.subrange(0, old(output)@.len() as int) == old(output)@,
            r matches Err(e) ==> e matches WsError::CompressFailed(_),
    {
        let ghost out0 = old(output)@;
        let total = input.len();
        let start = compress_total_in(&self.com);
        let mut guard: usize = total / 512 + 8;
        let mut flushed = false;
        while guard > 0
            invariant
                out0 == old(output)@,
                output@.len() >= out0.len(),
                output@.subrange(0, out0.len() as int) == out0,
                total == input@.len(),
            decreases guard,
        {
            let now = compress_total_in(&self.com);
            let delta = if now >= start {
                now - start
            } else {
                0
            };
            let off: usize = if delta > total as u64 {
                total
            } else {
                delta as usize
            };
            let ghost prev = output@;
            output.reserve(if total - off > 512 {
                total - off
            } else {
                512
            });
            let step = compress_step(&mut self.com, vstd::slice::slice_subrange(input, off, total), output);
            proof {
                assert forall|j: int| 0 <= j < out0.len() implies output@[j] == out0[j] by {
                    assert(output@.subrange(0, prev.len() as int)[j] == prev[j]);
                    assert(prev.subrange(0, out0.len() as int)[j] == out0[j]);
                }
                assert(output@.subrange(0, out0.len() as int) =~= out0);
            }
            if step.is_err() {
                return Err(WsError::CompressFailed(String::from_str("deflate failed")));
            }
            if off >= total {
                flushed = true;
                break;
            }
            guard -= 1;
        }
        if !flushed {
            return Err(WsError::CompressFailed(String::from_str("deflate made no progress")));
        }
        Ok(())
    }

    /// Forget the window: the next message starts a fresh stream.
    pub fn reset(&mut self) -> (r: Result<(), WsError>)
        ensures
            r is Ok,
    {
        compress_reset(&mut self.com);
        Ok(())
    }
}

/// The receive-side DEFLATE stream; the mirror of [`Compressor`].
#[derive(Debug)]
pub struct DeCompressor {
    de: flate2::Decompress,
}

impl DeCompressor {
    /// A fresh decompressing stream.
    pub fn new(_size: WindowBit) -> DeCompressor {
        DeCompressor { de: new_decompress() }
    }

    /// Decompress `input`, appending what comes out to `output`. The bytes
    /// already in `output` are left alone.
    pub fn decompress(&mut self, input: &[u8], output: &mut Vec<u8>) -> (r: Result<(), WsError>)
        ensures
            final(output)@.len() >= old(output)@.len(),
            final(output)@.subrange(0, old(output)@.len() as int) == old(output)@,
            r matches Err(e) ==> e matches WsError::DeCompressFailed(_),
    {
        let ghost out0 = old(output)@;
        let total = input.len();
        let start = decompress_total_in(&self.de);
        let mut guard: usize = total / 64 + 8;
        let mut flushed = false;
        while guard > 0
            invariant
                out0 == old(output)@,
                output@.len() >= out0.len(),
                output@.subrange(0, out0.len() as int) == out0,
                total == input@.len(),
            decreases guard,
        {
            let now = decompress_total_in(&self.de);
            let delta = if now >= start {
                now - start
            } else {
                0
            };
            let off: usize = if delta > total as u64 {
                total
            } else {
                delta as usize
            };
            let ghost prev = output@;
            output.reserve(if total > 512 && total < usize::MAX / 2 {
                2 * total
            } else {
                512
            });
            let step = decompress_step(&mut self.de, vstd::slice::slice_subrange(input, off, total), output);
            proof {
                assert forall|j: int| 0 <= j < out0.len() implies output@[j] == out0[j] by {
                    assert(output@.subrange(0, prev.len() as int)[j] == prev[j]);
                    assert(prev.subrange(0, out0.len() as int)[j] == out0[j]);
                }
                assert(output@.subrange(0, out0.len() as int) =~= out0);
            }
            if step.is_err() {
                return Err(WsError::DeCompressFailed(String::from_str("inflate failed")));
            }
            if off >= total {
                flushed = true;
                break;
            }
            guard -= 1;
        }
        if !flushed {
            return Err(WsError::DeCompressFailed(String::from_str("inflate made no progress")));
        }
        Ok(())
    }

    /// Forget the window: the next message starts a fresh stream.
    pub fn reset(&mut self) -> (r: Result<(), WsError>)
        ensures
            r is Ok,
    {
        decompress_reset(&mut self.de);
        Ok(())
    }
}

/// The negotiated parameters with the two DEFLATE streams they govern.
#[derive(Debug)]
pub struct StreamHandler {
    /// the negotiated parameters
    pub config: PMDConfig,
    /// the send-side stream
    pub com: Compressor,
    /// the receive-side stream
    pub de: DeCompressor,
}


/// The frame codec with permessage-deflate applied around it: data frames
/// are inflated on receipt and deflated before sending, with the
/// context-takeover lifecycle the negotiation fixed. The negotiated window
/// bounds travel in the handshake headers only; the streams themselves run
/// the backing library's default window (see [`Compressor`]).
#[derive(Debug)]
pub struct DeflateCodec {
    /// the frame layer underneath
    pub frame_codec: FrameCodec,
    /// the negotiated extension state; absent when not negotiated
    pub stream_handler: Option<StreamHandler>,
    /// whether this endpoint is the server
    pub is_server: bool,
}

/// The frame-layer options the extension runs over: reserved-bit checking
/// off (this layer owns the first one), text validation off (payloads are
/// compressed), masking by role.
pub fn deflate_frame_config(mask: bool) -> (r: FrameConfig)
    ensures
        r.mask_send_frame == mask,
        !r.check_rsv,
        r.validate_utf8 == ValidateUtf8Policy::Off,
{
    FrameConfig {
        mask_send_frame: mask,
        check_rsv: false,
        validate_utf8: ValidateUtf8Policy::Off,
        max_payload_len: None,
        auto_fragment_size: None,
    }
}

/// The per-set window harmonisation the negotiation ends with: both sides
/// run the smaller of the two bounds.
pub open spec fn spec_harmonise(config: Option<PMDConfig>) -> Option<PMDConfig> {
    match config {
        Some(c0) => {
            let min = if c0.server_max_window_bits <= c0.client_max_window_bits {
                c0.server_max_window_bits
            } else {
                c0.client_max_window_bits
            };
            Some(
                PMDConfig {
                    server_no_context_takeover: c0.server_no_context_takeover,
                    client_no_context_takeover: c0.client_no_context_takeover,
                    server_max_window_bits: min,
                    client_max_window_bits: min,
                },
            )
        },
        None => None,
    }
}

/// The last element of a sequence, or nothing when it is empty; what the
/// negotiation picks out of the offers.
pub open spec fn last_offer(cs: Seq<PMDConfig>) -> Option<PMDConfig> {
    if cs.len() == 0 {
        None
    } else {
        Some(cs.last())
    }
}

/// Harmonise the window bounds of a negotiated parameter set: both sides
/// run the smaller of the two.
pub fn harmonise_config(config: Option<PMDConfig>) -> (r: Option<PMDConfig>)
    ensures
        r == spec_harmonise(config),
        (config matches Some(c0) && c0.wf()) ==> (r matches Some(c) && c.wf()),
{
    match config {
        Some(c0) => {
            let min = if c0.server_max_window_bits <= c0.client_max_window_bits {
                c0.server_max_window_bits
            } else {
                c0.client_max_window_bits
            };
            Some(
                PMDConfig {
                    server_no_context_takeover: c0.server_no_context_takeover,
                    client_no_context_takeover: c0.client_no_context_takeover,
                    server_max_window_bits: min,
                    client_max_window_bits: min,
                },
            )
        },
        None => None,
    }
}

/// The parameter sets all Sec-WebSocket-Extensions headers of a header
/// list offer, in order, from position `i` on; nothing when one of the
/// header values is refused.
pub open spec fn spec_collect(headers: Seq<(String, String)>, i: int) -> Option<Seq<PMDConfig>>
    decreases headers.len() - i,
    when 0 <= i <= headers.len()
{
    if i >= headers.len() {
        Some(Seq::<PMDConfig>::empty())
    } else {
        let rest = spec_collect(headers, i + 1);
        if crate::protocol::lower_bytes(vstd::utf8::encode_utf8(headers[i].0@))
            == crate::protocol::lower_bytes(crate::protocol::sb("sec-websocket-extensions")) {
            match spec_parse_offers(vstd::utf8::encode_utf8(headers[i].1@), 0) {
                Some(cs) => match rest {
                    Some(tail) => Some(cs + tail),
                    None => None,
                },
                None => None,
            }
        } else {
            rest
        }
    }
}

/// Gather every parameter set offered in the Sec-WebSocket-Extensions
/// headers of a header list, in order; fails, with the handshake error,
/// exactly when one of them cannot be parsed.
pub fn collect_pmd_configs(headers: &Vec<(String, String)>) -> (r: Result<Vec<PMDConfig>, WsError>)
    ensures
        match r {
            Ok(cs) => spec_collect(headers@, 0) == Some(cs@),
            Err(e) => spec_collect(headers@, 0) is None && e matches WsError::HandShakeFailed(_),
        },
        r matches Ok(cs) ==> forall|k: int| 0 <= k < cs@.len() ==> (#[trigger] cs@[k]).wf(),
{
    let mut configs: Vec<PMDConfig> = Vec::new();
    let n = headers.len();
    let mut i: usize = 0;
    proof {
        match spec_collect(headers@, 0) {
            Some(t) => {
                assert(configs@ + t =~= t);
            },
            None => {},
        }
    }
    while i < n
        invariant
            i <= n,
            n == headers@.len(),
            match spec_collect(headers@, i as int) {
                Some(tail) => spec_collect(headers@, 0) == Some(configs@ + tail),
                None => spec_collect(headers@, 0) is None,
            },
            forall|k: int| 0 <= k < configs@.len() ==> (#[trigger] configs@[k]).wf(),
        decreases n - i,
    {
        let h = &headers[i];
        let ghost rest_i = spec_collect(headers@, i + 1);
        if crate::protocol::eq_ignore_ascii_case(
            h.0.as_str().as_bytes(),
            "sec-websocket-extensions".as_bytes(),
        ) {
            match PMDConfig::parse_str(h.1.as_str()) {
                Ok(mut cs) => {
                    let ghost configs0 = configs@;
                    let ghost parsed = cs@;
                    let m = cs.len();
                    let mut j: usize = 0;
                    while j < m
                        invariant
                            j <= m,
                            m == cs@.len(),
                            cs@ == parsed,
                            configs@ == configs0 + parsed.subrange(0, j as int),
                            forall|k: int| 0 <= k < cs@.len() ==> (#[trigger] cs@[k]).wf(),
                            forall|k: int|
                                0 <= k < configs@.len() ==> (#[trigger] configs@[k]).wf(),
                        decreases m - j,
                    {
                        proof {
                            assert(parsed.subrange(0, j as int).push(parsed[j as int])
                                =~= parsed.subrange(0, j + 1));
                        }
                        configs.push(cs[j]);
                        proof {
                            assert(configs@ =~= configs0 + parsed.subrange(0, j + 1));
                        }
                        j += 1;
                    }
                    proof {
                        assert(parsed.subrange(0, m as int) =~= parsed);
                        assert(configs@ =~= configs0 + parsed);
                        match rest_i {
                            Some(t) => {
                                assert(configs0 + (parsed + t) =~= configs@ + t);
                            },
                            None => {},
                        }
                    }
                },
                Err(_) => {
                    return Err(
                        WsError::HandShakeFailed(
                            String::from_str("invalid sec-websocket-extensions header"),
                        ),
                    );
                },
            }
        }
        i += 1;
    }
    proof {
        match spec_collect(headers@, n as int) {
            Some(t) => {
                assert(t =~= Seq::<PMDConfig>::empty());
                assert(configs@ + t =~= configs@);
            },
            None => {},
        }
    }
    Ok(configs)
}

/// A compressed payload with the empty-block marker the sender stripped
/// restored behind it: what the inflater is handed.
pub fn with_deflate_trailer(payload: Vec<u8>) -> (r: Vec<u8>)
    ensures
        r@ == payload@ + seq![0u8, 0u8, 255u8, 255u8],
{
    let mut r = payload;
    r.push(0);
    r.push(0);
    r.push(255);
    r.push(255);
    assert(r@ =~= old_payload_plus_marker(r@.subrange(0, r@.len() - 4)));
    r
}

/// A byte sequence followed by the DEFLATE empty-block marker.
pub open spec fn old_payload_plus_marker(p: Seq<u8>) -> Seq<u8> {
    p + seq![0u8, 0u8, 255u8, 255u8]
}

/// What one receive step of the extension codec does: when the connection
/// cannot receive, the call fails with the lifecycle error; otherwise the
/// frame machine runs one step ([`decode_post`]) and this layer acts on its
/// outcome: a compressed control frame is refused with close code 1002, an
/// uncompressed frame is passed through exactly as the frame layer yielded
/// it, a compressed data frame while the extension is off is refused with
/// close code 1002, and a compressed data frame otherwise is inflated -
/// yielding, whatever the opaque inflater did, either an unmasked final
/// frame under the same opcode or the decompression error.
pub open spec fn deflate_receive_post(
    pre: DeflateCodec,
    post: DeflateCodec,
    r: Result<Option<OwnedFrame>, WsError>,
) -> bool {
    let st = pre.frame_codec.state;
    &&& post.is_server == pre.is_server
    &&& post.frame_codec.stream.output == pre.frame_codec.stream.output
    &&& post.frame_codec.encoder == pre.frame_codec.encoder
    &&& (post.stream_handler is Some <==> pre.stream_handler is Some)
    &&& (post.stream_handler matches Some(h) ==> pre.stream_handler matches Some(h0) && h.config
        == h0.config)
    &&& if !(st is Running || st is Closing) {
        &&& r matches Err(WsError::InvalidConnState(s)) && s == st
        &&& post.frame_codec == pre.frame_codec
    } else {
        exists|rr: Result<Option<OwnedFrame>, WsError>|
            {
                &&& #[trigger] decode_post(
                    pre.frame_codec.decoder,
                    post.frame_codec.decoder,
                    pre.frame_codec.stream.input@,
                    post.frame_codec.stream.input@,
                    rr,
                )
                &&& match rr {
                    Ok(None) => r == Ok::<Option<OwnedFrame>, WsError>(None)
                        && post.frame_codec.state == st,
                    Err(e) => r == Err::<Option<OwnedFrame>, WsError>(e)
                        && post.frame_codec.state == st,
                    Ok(Some(g)) => {
                        &&& post.frame_codec.state == if opcode_of(g.header.0@) is Close {
                            crate::errors::ConnectionState::Closed
                        } else {
                            st
                        }
                        &&& if rsv1_of(g.header.0@) && !opcode_of(g.header.0@).spec_is_data() {
                            r matches Err(WsError::ProtocolError { close_code: 1002, error })
                                && error == ProtocolError::CompressedControlFrame
                        } else if !rsv1_of(g.header.0@) {
                            r == Ok::<Option<OwnedFrame>, WsError>(Some(g))
                        } else if pre.stream_handler is None {
                            r matches Err(WsError::ProtocolError { close_code: 1002, error })
                                && error == ProtocolError::NotDeflateDataWhileEnabled
                        } else {
                            ||| (r matches Ok(Some(f)) && f.wf() && !masked_of(f.header.0@)
                                && fin_of(f.header.0@) && !rsv1_of(f.header.0@) && opcode_of(
                                f.header.0@,
                            ) == opcode_of(g.header.0@))
                            ||| (r matches Err(WsError::DeCompressFailed(_)))
                        }
                    },
                }
            }
    }
}

impl DeflateCodec {
    /// The negotiated parameters, when the extension is on, are well-formed.
    pub open spec fn wf(&self) -> bool {
        match self.stream_handler {
            Some(h) => h.config.wf(),
            None => true,
        }
    }

    /// Wrap a frame codec, turning the extension on when a parameter set
    /// was negotiated.
    pub fn new(frame_codec: FrameCodec, config: Option<PMDConfig>, is_server: bool) -> (r:
        DeflateCodec)
        requires
            config matches Some(c) ==> c.wf(),
        ensures
            r.wf(),
            r.frame_codec == frame_codec,
            r.is_server == is_server,
            r.stream_handler is Some <==> config is Some,
            r.stream_handler matches Some(h) ==> config == Some(h.config),
    {
        let stream_handler = match config {
            Some(config) => {
                let com_size = if is_server {
                    config.client_max_window_bits
                } else {
                    config.server_max_window_bits
                };
                let com = match WindowBit::from_u8(com_size) {
                    Some(w) => Compressor::new(w),
                    None => Compressor::new(WindowBit::Fifteen),
                };
                let de_size = if is_server {
                    config.client_max_window_bits
                } else {
                    config.server_max_window_bits
                };
                let de = match WindowBit::from_u8(de_size) {
                    Some(w) => DeCompressor::new(w),
                    None => DeCompressor::new(WindowBit::Fifteen),
                };
                Some(StreamHandler { config, com, de })
            },
            None => None,
        };
        DeflateCodec { frame_codec, stream_handler, is_server }
    }

    /// Build the server side from a parsed upgrade request: take the last
    /// offered parameter set, harmonise the window bounds, and run the
    /// frame layer unmasked with reserved-bit checking off. Fails, with the
    /// handshake error, exactly when an extension header cannot be parsed.
    pub fn factory(req: &HandshakeRequest, stream: BufferStream) -> (r: Result<
        DeflateCodec,
        WsError,
    >)
        ensures
            r is Ok <==> spec_collect(req.headers@, 0) is Some,
            r matches Err(e) ==> e matches WsError::HandShakeFailed(_),
            r matches Ok(c) ==> {
                &&& c.wf()
                &&& c.is_server
                &&& !c.frame_codec.encoder.config.mask_send_frame
                &&& !c.frame_codec.decoder.config.check_rsv
                &&& c.frame_codec.decoder.config.validate_utf8 == ValidateUtf8Policy::Off
                &&& c.frame_codec.state is Running
                &&& c.frame_codec.stream == stream
                &&& ({
                    let neg = spec_harmonise(
                        last_offer(spec_collect(req.headers@, 0)->Some_0),
                    );
                    match neg {
                        Some(cfg) => c.stream_handler matches Some(h) && h.config == cfg,
                        None => c.stream_handler is None,
                    }
                })
            },
    {
        let mut configs = collect_pmd_configs(&req.headers)?;
        let config = harmonise_config(configs.pop());
        let frame_codec = FrameCodec::new_with(stream, deflate_frame_config(false));
        Ok(DeflateCodec::new(frame_codec, config, true))
    }

    /// Build the client side from the response to the upgrade request: the
    /// response must pass the standard check; the parameter set the server
    /// echoed, if any, harmonised, turns the extension on. Fails, with the
    /// handshake error, exactly when the check fails or an extension header
    /// cannot be parsed.
    pub fn check_fn(key: String, resp: &HandshakeResponse, stream: BufferStream) -> (r: Result<
        DeflateCodec,
        WsError,
    >)
        ensures
            r is Ok <==> (resp_check_ok(vstd::utf8::encode_utf8(key@), *resp) && spec_collect(
                resp.headers@,
                0,
            ) is Some),
            r matches Err(e) ==> e matches WsError::HandShakeFailed(_),
            r matches Ok(c) ==> {
                &&& c.wf()
                &&& !c.is_server
                &&& c.frame_codec.encoder.config.mask_send_frame
                &&& !c.frame_codec.decoder.config.check_rsv
                &&& c.frame_codec.decoder.config.validate_utf8 == ValidateUtf8Policy::Off
                &&& c.frame_codec.state is Running
                &&& c.frame_codec.stream == stream
                &&& ({
                    let neg = spec_harmonise(
                        last_offer(spec_collect(resp.headers@, 0)->Some_0),
                    );
                    match neg {
                        Some(cfg) => c.stream_handler matches Some(h) && h.config == cfg,
                        None => c.stream_handler is None,
                    }
                })
            },
    {
        standard_handshake_resp_check(key.as_str(), resp)?;
        let mut configs = collect_pmd_configs(&resp.headers)?;
        let config = harmonise_config(configs.pop());
        let frame_codec = FrameCodec::new_with(stream, deflate_frame_config(true));
        Ok(DeflateCodec::new(frame_codec, config, false))
    }

    /// The in-memory stream endpoint of the frame layer.
    pub fn stream_mut(&mut self) -> (r: &mut BufferStream)
        ensures
            *r == old(self).frame_codec.stream,
            final(self).frame_codec.stream == *final(r),
            final(self).frame_codec.encoder == old(self).frame_codec.encoder,
            final(self).frame_codec.decoder == old(self).frame_codec.decoder,
            final(self).frame_codec.state == old(self).frame_codec.state,
            final(self).is_server == old(self).is_server,
    {
        self.frame_codec.stream_mut()
    }

    /// Decode the next message-bearing frame and undo the extension's work.
    /// The exact behaviour is [`deflate_receive_post`].
    pub fn receive(&mut self) -> (r: Result<Option<OwnedFrame>, WsError>)
        requires
            old(self).wf(),
        ensures
            final(self).wf(),
            deflate_receive_post(*old(self), *final(self), r),
    {
        let frame = match self.frame_codec.receive() {
            Ok(Some(f)) => f,
            Ok(None) => {
                return Ok(None);
            },
            Err(e) => {
                return Err(e);
            },
        };
        let compressed = frame.header.rsv1();
        let is_data = frame.header.opcode().is_data();
        if compressed && !is_data {
            return Err(
                WsError::ProtocolError {
                    close_code: 1002,
                    error: ProtocolError::CompressedControlFrame,
                },
            );
        }
        if !compressed {
            return Ok(Some(frame));
        }
        match &mut self.stream_handler {
            Some(handler) => {
                let opcode = frame.header.opcode();
                let (_, payload) = frame.parts();
                let input = with_deflate_trailer(payload);
                let mut decompressed: Vec<u8> = Vec::new();
                if let Err(e) = handler.de.decompress(input.as_slice(), &mut decompressed) {
                    return Err(e);
                }
                let reset = if self.is_server {
                    handler.config.client_no_context_takeover
                } else {
                    handler.config.server_no_context_takeover
                };
                if reset {
                    if let Err(e) = handler.de.reset() {
                        return Err(e);
                    }
                }
                Ok(Some(OwnedFrame::new(opcode, None, decompressed.as_slice())))
            },
            None => Err(
                WsError::ProtocolError {
                    close_code: 1002,
                    error: ProtocolError::NotDeflateDataWhileEnabled,
                },
            ),
        }
    }

    /// Apply the extension's work to one outbound frame and queue it. The
    /// exact behaviour is [`deflate_send_post`].
    pub fn send_owned_frame(&mut self, frame: OwnedFrame) -> (r: Result<(), WsError>)
        requires
            old(self).wf(),
            frame.wf(),
        ensures
            final(self).wf(),
            deflate_send_post(*old(self), *final(self), frame, r),
    {
        if !matches!(self.frame_codec.state, crate::errors::ConnectionState::Running) {
            return Err(WsError::InvalidConnState(self.frame_codec.state));
        }
        if !frame.header.opcode().is_data() {
            let r = self.frame_codec.send_owned_frame(frame);
            return match r {
                Ok(()) => Ok(()),
                Err(e) => Err(e),
            };
        }
        match &mut self.stream_handler {
            None => self.frame_codec.send_owned_frame(frame),
            Some(handler) => {
                let mut f = frame;
                let prev_mask = f.unmask();
                let mut compressed: Vec<u8> = Vec::new();
                if let Err(e) = handler.com.compress(f.payload.as_slice(), &mut compressed) {
                    return Err(e);
                }
                let cl = compressed.len();
                if cl < 4 || !(compressed[cl - 4] == 0 && compressed[cl - 3] == 0 && compressed[cl
                    - 2] == 255 && compressed[cl - 1] == 255) {
                    return Err(
                        WsError::CompressFailed(
                            String::from_str("missing trailing empty block"),
                        ),
                    );
                }
                compressed.truncate(cl - 4);
                let mut g = OwnedFrame::new(f.header.opcode(), prev_mask, compressed.as_slice());
                g.header.set_rsv1(true);
                let fin = f.header.fin();
                g.header.set_fin(fin);
                let reset = if self.is_server {
                    handler.config.server_no_context_takeover
                } else {
                    handler.config.client_no_context_takeover
                };
                if reset {
                    if let Err(e) = handler.com.reset() {
                        return Err(e);
                    }
                }
                let ghost gg = g;
                let r = self.frame_codec.send_owned_frame(g);
                match r {
                    Ok(()) => {
                        proof {
                            assert(gg.wf() && rsv1_of(gg.header.0@));
                        }
                        Ok(())
                    },
                    Err(e) => Err(e),
                }
            },
        }
    }
}

/// What sending one frame through the extension codec does: when the
/// connection is not running, the call fails with the lifecycle error and
/// queues nothing. A control frame, and any frame while the extension is
/// off, is queued byte-identically. A data frame with the extension on is
/// deflated: whatever the opaque compressor produced, either the
/// compression error comes back with nothing queued, or exactly one frame
/// went out - well-formed, first reserved bit set, same opcode, fin and
/// masking as the input, masked under the input's own key when it was
/// masked.
pub open spec fn deflate_send_post(
    pre: DeflateCodec,
    post: DeflateCodec,
    frame: OwnedFrame,
    r: Result<(), WsError>,
) -> bool {
    let st = pre.frame_codec.state;
    &&& post.is_server == pre.is_server
    &&& post.frame_codec.stream.input == pre.frame_codec.stream.input
    &&& post.frame_codec.decoder == pre.frame_codec.decoder
    &&& post.frame_codec.encoder == pre.frame_codec.encoder
    &&& (post.stream_handler is Some <==> pre.stream_handler is Some)
    &&& (post.stream_handler matches Some(h) ==> pre.stream_handler matches Some(h0) && h.config
        == h0.config)
    &&& if !(st is Running) {
        &&& r matches Err(WsError::InvalidConnState(s)) && s == st
        &&& post.frame_codec == pre.frame_codec
    } else if !opcode_of(frame.header.0@).spec_is_data() || pre.stream_handler is None {
        &&& r is Ok
        &&& post.frame_codec.stream.output@ == pre.frame_codec.stream.output@ + frame.header.0@
            + frame.payload@
        &&& post.frame_codec.state == if opcode_of(frame.header.0@) is Close {
            crate::errors::ConnectionState::Closing
        } else {
            st
        }
    } else {
        &&& post.frame_codec.state == st
        &&& match r {
            Ok(()) => exists|g: OwnedFrame|
                {
                    &&& #[trigger] g.wf()
                    &&& rsv1_of(g.header.0@)
                    &&& opcode_of(g.header.0@) == opcode_of(frame.header.0@)
                    &&& fin_of(g.header.0@) == fin_of(frame.header.0@)
                    &&& masked_of(g.header.0@) == masked_of(frame.header.0@)
                    &&& (masked_of(frame.header.0@) ==> key_of(g.header.0@) == key_of(
                        frame.header.0@,
                    ))
                    &&& post.frame_codec.stream.output@ == pre.frame_codec.stream.output@
                        + g.header.0@ + g.payload@
                },
            Err(e) => e matches WsError::CompressFailed(_)
                && post.frame_codec.stream.output == pre.frame_codec.stream.output,
        }
    }
}

} // verus!
