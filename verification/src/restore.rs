//! Parsing and planning for database dump restores.
//!
//! The dump stream arrives as bytes; everything here decides what those
//! bytes mean — header validation, packet framing, dump-file naming — and
//! what statements to run.  Reading the stream and talking to the server
//! stay outside and hand buffers and outcomes in as plain values.

use vstd::prelude::*;

use crate::print::style::str_chars;
use crate::text::ascii_lower;
use crate::text::chars_eq_str;
use crate::text::chars_to_string;
use crate::text::str_eq;
use crate::text::to_lower_char;

verus! {

/// The kind of a dump packet.
#[derive(Clone, Copy, PartialEq, Eq, Structural, Debug)]
pub enum PacketType {
    /// The dump header packet.
    Header,
    /// A data block packet.
    Block,
}

/// A dump packet header: one type byte, a twenty-byte checksum, a
/// four-byte big-endian payload length.
pub const PACKET_HEADER_LEN: usize = 25;

/// A big-endian 32-bit value.
pub open spec fn be32(b0: u8, b1: u8, b2: u8, b3: u8) -> nat {
    (b0 as nat) * 0x1000000 + (b1 as nat) * 0x10000 + (b2 as nat) * 0x100 + (b3 as nat)
}

/// A big-endian 64-bit value.
pub open spec fn be64(b: Seq<u8>) -> nat {
    (b[0] as nat) * 0x100000000000000 + (b[1] as nat) * 0x1000000000000 + (b[2] as nat)
        * 0x10000000000 + (b[3] as nat) * 0x100000000 + (b[4] as nat) * 0x1000000 + (b[5] as nat)
        * 0x10000 + (b[6] as nat) * 0x100 + (b[7] as nat)
}

/// What examining a buffered prefix of the dump stream yields.
pub enum PacketParse {
    /// More bytes are needed before a decision: the total count required.
    NeedBytes(u64),
    /// The type byte is not a known packet kind.
    Invalid(u8),
    /// A well-formed packet of the wrong kind.
    Mismatch(PacketType),
    /// A complete packet is buffered; its payload is this long.
    Packet(u32),
}

/// Examine the buffered bytes for one packet of the expected kind.
///
/// The decision: with fewer bytes than a packet header nothing is known
/// yet; then the type byte must be `H` (header) or `D` (block) and match
/// the expectation; then the payload must be fully buffered.
pub fn parse_packet(buf: &Vec<u8>, expected: PacketType) -> (r: PacketParse)
    ensures
        buf@.len() < 25 ==> r == PacketParse::NeedBytes(25u64),
        buf@.len() >= 25 ==> {
            let t = buf@[0];
            let len = be32(buf@[21], buf@[22], buf@[23], buf@[24]);
            if t != 72 && t != 68 {
                r == PacketParse::Invalid(t)
            } else {
                let typ = if t == 72 {
                    PacketType::Header
                } else {
                    PacketType::Block
                };
                if typ != expected {
                    r == PacketParse::Mismatch(typ)
                } else if buf@.len() < 25 + len {
                    r == PacketParse::NeedBytes((25 + len) as u64)
                } else {
                    r == PacketParse::Packet(len as u32)
                }
            }
        },
{
    if buf.len() < 25 {
        return PacketParse::NeedBytes(25);
    }
    let t = buf[0];
    let typ = if t == 72 {
        PacketType::Header
    } else if t == 68 {
        PacketType::Block
    } else {
        return PacketParse::Invalid(t);
    };
    if typ != expected {
        return PacketParse::Mismatch(typ);
    }
    let len: u32 = (buf[21] as u32) * 0x1000000 + (buf[22] as u32) * 0x10000 + (buf[23] as u32)
        * 0x100 + (buf[24] as u32);
    let need: u64 = 25u64 + (len as u64);
    if (buf.len() as u64) < need {
        return PacketParse::NeedBytes(need);
    }
    PacketParse::Packet(len)
}

/// The seventeen magic bytes that open every dump file.
pub open spec fn dump_magic() -> Seq<u8> {
    seq![
        0xffu8,
        0xd8u8,
        0x00u8,
        0x00u8,
        0xd8u8,
        0x45u8,
        0x44u8,
        0x47u8,
        0x45u8,
        0x44u8,
        0x42u8,
        0x00u8,
        0x44u8,
        0x55u8,
        0x4du8,
        0x50u8,
        0x00u8,
    ]
}

/// Why a dump header was rejected.
#[derive(Clone, Copy, PartialEq, Eq, Structural, Debug)]
pub enum DumpError {
    /// The magic bytes do not match: not a dump file.
    BadMagic,
    /// The version is zero or beyond the supported range.
    UnsupportedVersion,
}

/// The newest dump version this tool reads.
pub const MAX_SUPPORTED_DUMP_VER: u64 = 1;

/// Whether a version field is rejected: zero, or greater than the
/// supported maximum while still non-negative under the wire format's
/// signed interpretation.
pub open spec fn version_rejected(v: nat) -> bool {
    v == 0 || (v > 1 && v < 0x8000000000000000)
}

/// Validate the twenty-five-byte dump prologue: the magic bytes, then the
/// big-endian version, which must be exactly the supported one (or fall
/// outside the range the signed comparison reaches).
pub fn check_dump_header(buf: &Vec<u8>) -> (r: Result<u64, DumpError>)
    requires
        buf@.len() >= 25,
    ensures
        buf@.subrange(0, 17) != dump_magic() ==> r == Result::<u64, DumpError>::Err(
            DumpError::BadMagic,
        ),
        buf@.subrange(0, 17) == dump_magic() && version_rejected(be64(buf@.subrange(17, 25))) ==> r
            == Result::<u64, DumpError>::Err(DumpError::UnsupportedVersion),
        buf@.subrange(0, 17) == dump_magic() && !version_rejected(be64(buf@.subrange(17, 25)))
            ==> (r matches Ok(v) && v as nat == be64(buf@.subrange(17, 25))),
{
    let magic: [u8; 17] = [
        0xff,
        0xd8,
        0x00,
        0x00,
        0xd8,
        0x45,
        0x44,
        0x47,
        0x45,
        0x44,
        0x42,
        0x00,
        0x44,
        0x55,
        0x4d,
        0x50,
        0x00,
    ];
    let mut i: usize = 0;
    while i < 17
        invariant
            i <= 17,
            buf@.len() >= 25,
            magic@ == dump_magic(),
            forall|j: int| 0 <= j < i ==> buf@[j] == dump_magic()[j],
        decreases 17 - i,
    {
        if buf[i] != magic[i] {
            proof {
                assert(buf@.subrange(0, 17)[i as int] == buf@[i as int]);
                assert(buf@.subrange(0, 17) != dump_magic());
            }
            return Err(DumpError::BadMagic);
        }
        i = i + 1;
    }
    proof {
        assert(buf@.subrange(0, 17) =~= dump_magic());
    }
    let v: u64 = (buf[17] as u64) * 0x100000000000000 + (buf[18] as u64) * 0x1000000000000 + (
    buf[19] as u64) * 0x10000000000 + (buf[20] as u64) * 0x100000000 + (buf[21] as u64) * 0x1000000
        + (buf[22] as u64) * 0x10000 + (buf[23] as u64) * 0x100 + (buf[24] as u64);
    proof {
        assert(buf@.subrange(17, 25)[0] == buf@[17]);
        assert(buf@.subrange(17, 25)[1] == buf@[18]);
        assert(buf@.subrange(17, 25)[2] == buf@[19]);
        assert(buf@.subrange(17, 25)[3] == buf@[20]);
        assert(buf@.subrange(17, 25)[4] == buf@[21]);
        assert(buf@.subrange(17, 25)[5] == buf@[22]);
        assert(buf@.subrange(17, 25)[6] == buf@[23]);
        assert(buf@.subrange(17, 25)[7] == buf@[24]);
    }
    if v == 0 {
        return Err(DumpError::UnsupportedVersion);
    }
    if v > MAX_SUPPORTED_DUMP_VER && v < 0x8000000000000000 {
        return Err(DumpError::UnsupportedVersion);
    }
    Ok(v)
}

/// The index after the last `.` usable as an extension separator, or
/// nothing: a dot at the very start names a hidden file, not an extension.
pub open spec fn last_dot(s: Seq<char>) -> int
    decreases s.len(),
{
    if s.len() == 0 {
        -1
    } else if s[s.len() - 1] == '.' {
        s.len() - 1
    } else {
        last_dot(s.drop_last())
    }
}

/// The stem of a simple file name: everything before the last dot, except
/// that a lone leading dot marks a hidden file whose whole name is the
/// stem.
pub open spec fn stem_of(s: Seq<char>) -> Seq<char> {
    let d = last_dot(s);
    if d <= 0 {
        s
    } else {
        s.take(d)
    }
}

/// Extract the stem of a simple file name.
pub fn file_stem(name: &str) -> (r: String)
    ensures
        r@ == stem_of(name@),
{
    let cs = str_chars(name);
    let n = cs.len();
    let mut d: usize = 0;
    let mut found = false;
    let mut i: usize = n;
    proof {
        assert(name@.take(n as int) =~= name@);
    }
    while i > 0
        invariant
            i <= n,
            n == cs@.len(),
            cs@ == name@,
            !found ==> last_dot(name@.take(i as int)) == last_dot(name@),
            found ==> d < n && name@[d as int] == '.' && last_dot(name@) == d,
            found ==> i == 0,
        decreases i,
    {
        proof {
            assert(name@.take(i as int).drop_last() =~= name@.take(i as int - 1));
        }
        if cs[i - 1] == '.' {
            d = i - 1;
            found = true;
            proof {
                assert(name@.take(i as int)[i - 1] == name@[i - 1]);
            }
            i = 0;
        } else {
            proof {
                assert(name@.take(i as int)[i - 1] == name@[i - 1]);
            }
            i = i - 1;
        }
    }
    proof {
        if !found {
            assert(name@.take(0int) =~= Seq::<char>::empty());
            assert(last_dot(name@) == -1);
        }
    }
    if !found || d == 0 {
        name.to_owned()
    } else {
        let mut out: Vec<char> = Vec::new();
        let mut j: usize = 0;
        while j < d
            invariant
                j <= d,
                d <= n,
                n == cs@.len(),
                cs@ == name@,
                out@ == name@.take(j as int),
            decreases d - j,
        {
            out.push(cs[j]);
            proof {
                assert(out@ =~= name@.take(j as int + 1));
            }
            j = j + 1;
        }
        chars_to_string(&out)
    }
}

/// What percent-decoding a file name yields; the decoder's result depends
/// on the characters alone.
pub uninterp spec fn percent_decoded(s: Seq<char>) -> Seq<char>;

/// Relies on `urlencoding::decode`: the result is a pure function of the
/// input, a string with no `%` passes through unchanged, and failure (a
/// non-UTF-8 decode) requires a `%` escape to be present.
#[verifier::external_body]
fn url_decode(s: &str) -> (r: Option<String>)
    ensures
        r matches Some(d) ==> d@ == percent_decoded(s@),
        r matches Some(d) ==> (!s@.contains('%') ==> d@ == s@),
        r is None ==> s@.contains('%'),
{
    match urlencoding::decode(s) {
        Ok(c) => Some(c.into_owned()),
        Err(_) => None,
    }
}

/// Why a dump file name does not name a database.
#[derive(Clone, Copy, PartialEq, Eq, Structural, Debug)]
pub enum NameError {
    /// The percent-encoded stem does not decode to text.
    InvalidEncoding,
}

/// The database a dump file belongs to: its stem, percent-decoded.
pub fn path_to_database_name(file_name: &str) -> (r: Result<String, NameError>)
    ensures
        r matches Ok(d) ==> d@ == percent_decoded(stem_of(file_name@)),
        r matches Ok(d) ==> (!stem_of(file_name@).contains('%') ==> d@ == stem_of(file_name@)),
        r is Err ==> stem_of(file_name@).contains('%'),
{
    let stem = file_stem(file_name);
    match url_decode(stem.as_str()) {
        Option::Some(d) => Ok(d),
        Option::None => Err(NameError::InvalidEncoding),
    }
}

/// Whether a file name carries the dump extension.
pub fn has_dump_extension(file_name: &str) -> (r: bool)
    ensures
        r == (file_name@.len() > 5 && file_name@.subrange(
            file_name@.len() - 5,
            file_name@.len() as int,
        ) == ".dump"@),
{
    proof {
        reveal_strlit(".dump");
    }
    let n = file_name.unicode_len();
    if n <= 5 {
        return false;
    }
    let cs = str_chars(file_name);
    let ext = str_chars(".dump");
    let mut i: usize = 0;
    while i < 5
        invariant
            i <= 5,
            n == cs@.len(),
            n > 5,
            cs@ == file_name@,
            ext@ == ".dump"@,
            ".dump"@.len() == 5,
            forall|j: int| 0 <= j < i ==> file_name@[n - 5 + j] == ".dump"@[j],
        decreases 5 - i,
    {
        if cs[n - 5 + i] != ext[i] {
            proof {
                assert(file_name@.subrange(n - 5, n as int)[i as int] == file_name@[n - 5
                    + i]);
            }
            return false;
        }
        i = i + 1;
    }
    proof {
        assert(file_name@.subrange(n - 5, n as int) =~= ".dump"@);
    }
    true
}

/// Whether a character outside a comment carries nothing to execute:
/// whitespace or a statement separator.
pub open spec fn trivial_char(c: char) -> bool {
    c == ' ' || c == '\t' || c == '\r' || c == '\n' || c == ';'
}

/// Whether a chunk holds nothing to execute from this point on:
/// whitespace, statement separators and `#` line comments only.
pub open spec fn trivial_from(s: Seq<char>, in_comment: bool) -> bool
    decreases s.len(),
{
    if s.len() == 0 {
        true
    } else if in_comment {
        trivial_from(s.drop_first(), s[0] != '\n')
    } else if s[0] == '#' {
        trivial_from(s.drop_first(), true)
    } else {
        trivial_char(s[0]) && trivial_from(s.drop_first(), false)
    }
}

/// Whether an init-script chunk holds nothing to execute.
pub fn statement_is_trivial(stmt: &str) -> (r: bool)
    ensures
        r == trivial_from(stmt@, false),
{
    let cs = str_chars(stmt);
    let n = cs.len();
    let mut in_comment = false;
    let mut i: usize = 0;
    proof {
        assert(stmt@.skip(0) =~= stmt@);
    }
    while i < n
        invariant
            i <= n,
            n == cs@.len(),
            cs@ == stmt@,
            trivial_from(stmt@, false) == trivial_from(stmt@.skip(i as int), in_comment),
        decreases n - i,
    {
        proof {
            assert(stmt@.skip(i as int)[0] == stmt@[i as int]);
            assert(stmt@.skip(i as int).drop_first() =~= stmt@.skip(i as int + 1));
        }
        let c = cs[i];
        if in_comment {
            in_comment = c != '\n';
        } else if c == '#' {
            in_comment = true;
        } else if !(c == ' ' || c == '\t' || c == '\r' || c == '\n' || c == ';') {
            return false;
        }
        i = i + 1;
    }
    proof {
        assert(stmt@.skip(n as int) =~= Seq::<char>::empty());
    }
    true
}

/// Whether a lowercase name is one of the reserved keywords of the query
/// language, which can never stand bare in a statement.
pub open spec fn is_reserved_lower(l: Seq<char>) -> bool {
    l == "__default__"@
        || l == "__edgedbsys__"@
        || l == "__edgedbtpl__"@
        || l == "__new__"@
        || l == "__old__"@
        || l == "__source__"@
        || l == "__specified__"@
        || l == "__std__"@
        || l == "__subject__"@
        || l == "__type__"@
        || l == "administer"@
        || l == "alter"@
        || l == "analyze"@
        || l == "and"@
        || l == "anyarray"@
        || l == "anyobject"@
        || l == "anytuple"@
        || l == "anytype"@
        || l == "begin"@
        || l == "by"@
        || l == "case"@
        || l == "check"@
        || l == "commit"@
        || l == "configure"@
        || l == "create"@
        || l == "deallocate"@
        || l == "declare"@
        || l == "delete"@
        || l == "describe"@
        || l == "detached"@
        || l == "discard"@
        || l == "distinct"@
        || l == "do"@
        || l == "drop"@
        || l == "else"@
        || l == "end"@
        || l == "exists"@
        || l == "explain"@
        || l == "extending"@
        || l == "fetch"@
        || l == "filter"@
        || l == "for"@
        || l == "get"@
        || l == "global"@
        || l == "grant"@
        || l == "group"@
        || l == "if"@
        || l == "ilike"@
        || l == "import"@
        || l == "in"@
        || l == "insert"@
        || l == "introspect"@
        || l == "is"@
        || l == "like"@
        || l == "limit"@
        || l == "listen"@
        || l == "load"@
        || l == "lock"@
        || l == "match"@
        || l == "module"@
        || l == "move"@
        || l == "never"@
        || l == "not"@
        || l == "notify"@
        || l == "offset"@
        || l == "on"@
        || l == "optional"@
        || l == "or"@
        || l == "order"@
        || l == "over"@
        || l == "partition"@
        || l == "policy"@
        || l == "prepare"@
        || l == "raise"@
        || l == "refresh"@
        || l == "reindex"@
        || l == "release"@
        || l == "reset"@
        || l == "revoke"@
        || l == "rollback"@
        || l == "select"@
        || l == "set"@
        || l == "single"@
        || l == "start"@
        || l == "typeof"@
        || l == "union"@
        || l == "update"@
        || l == "variadic"@
        || l == "when"@
        || l == "window"@
        || l == "with"@
}

/// Whether a name, folded to lowercase, is a reserved keyword.
pub open spec fn is_reserved(s: Seq<char>) -> bool {
    is_reserved_lower(ascii_lower(s))
}

/// Check a name against the reserved keywords, case-insensitively.
pub fn is_reserved_keyword(name: &str) -> (r: bool)
    ensures
        r == is_reserved(name@),
{
    let cs = str_chars(name);
    let mut low: Vec<char> = Vec::new();
    let mut i: usize = 0;
    while i < cs.len()
        invariant
            i <= cs@.len(),
            cs@ == name@,
            low@ == ascii_lower(name@).take(i as int),
        decreases cs@.len() - i,
    {
        low.push(to_lower_char(cs[i]));
        proof {
            assert(low@ =~= ascii_lower(name@).take(i as int + 1));
        }
        i = i + 1;
    }
    proof {
        assert(ascii_lower(name@).take(name@.len() as int) =~= ascii_lower(name@));
    }
    chars_eq_str(&low, "__default__")
        || chars_eq_str(&low, "__edgedbsys__")
        || chars_eq_str(&low, "__edgedbtpl__")
        || chars_eq_str(&low, "__new__")
        || chars_eq_str(&low, "__old__")
        || chars_eq_str(&low, "__source__")
        || chars_eq_str(&low, "__specified__")
        || chars_eq_str(&low, "__std__")
        || chars_eq_str(&low, "__subject__")
        || chars_eq_str(&low, "__type__")
        || chars_eq_str(&low, "administer")
        || chars_eq_str(&low, "alter")
        || chars_eq_str(&low, "analyze")
        || chars_eq_str(&low, "and")
        || chars_eq_str(&low, "anyarray")
        || chars_eq_str(&low, "anyobject")
        || chars_eq_str(&low, "anytuple")
        || chars_eq_str(&low, "anytype")
        || chars_eq_str(&low, "begin")
        || chars_eq_str(&low, "by")
        || chars_eq_str(&low, "case")
        || chars_eq_str(&low, "check")
        || chars_eq_str(&low, "commit")
        || chars_eq_str(&low, "configure")
        || chars_eq_str(&low, "create")
        || chars_eq_str(&low, "deallocate")
        || chars_eq_str(&low, "declare")
        || chars_eq_str(&low, "delete")
        || chars_eq_str(&low, "describe")
        || chars_eq_str(&low, "detached")
        || chars_eq_str(&low, "discard")
        || chars_eq_str(&low, "distinct")
        || chars_eq_str(&low, "do")
        || chars_eq_str(&low, "drop")
        || chars_eq_str(&low, "else")
        || chars_eq_str(&low, "end")
        || chars_eq_str(&low, "exists")
        || chars_eq_str(&low, "explain")
        || chars_eq_str(&low, "extending")
        || chars_eq_str(&low, "fetch")
        || chars_eq_str(&low, "filter")
        || chars_eq_str(&low, "for")
        || chars_eq_str(&low, "get")
        || chars_eq_str(&low, "global")
        || chars_eq_str(&low, "grant")
        || chars_eq_str(&low, "group")
        || chars_eq_str(&low, "if")
        || chars_eq_str(&low, "ilike")
        || chars_eq_str(&low, "import")
        || chars_eq_str(&low, "in")
        || chars_eq_str(&low, "insert")
        || chars_eq_str(&low, "introspect")
        || chars_eq_str(&low, "is")
        || chars_eq_str(&low, "like")
        || chars_eq_str(&low, "limit")
        || chars_eq_str(&low, "listen")
        || chars_eq_str(&low, "load")
        || chars_eq_str(&low, "lock")
        || chars_eq_str(&low, "match")
        || chars_eq_str(&low, "module")
        || chars_eq_str(&low, "move")
        || chars_eq_str(&low, "never")
        || chars_eq_str(&low, "not")
        || chars_eq_str(&low, "notify")
        || chars_eq_str(&low, "offset")
        || chars_eq_str(&low, "on")
        || chars_eq_str(&low, "optional")
        || chars_eq_str(&low, "or")
        || chars_eq_str(&low, "order")
        || chars_eq_str(&low, "over")
        || chars_eq_str(&low, "partition")
        || chars_eq_str(&low, "policy")
        || chars_eq_str(&low, "prepare")
        || chars_eq_str(&low, "raise")
        || chars_eq_str(&low, "refresh")
        || chars_eq_str(&low, "reindex")
        || chars_eq_str(&low, "release")
        || chars_eq_str(&low, "reset")
        || chars_eq_str(&low, "revoke")
        || chars_eq_str(&low, "rollback")
        || chars_eq_str(&low, "select")
        || chars_eq_str(&low, "set")
        || chars_eq_str(&low, "single")
        || chars_eq_str(&low, "start")
        || chars_eq_str(&low, "typeof")
        || chars_eq_str(&low, "union")
        || chars_eq_str(&low, "update")
        || chars_eq_str(&low, "variadic")
        || chars_eq_str(&low, "when")
        || chars_eq_str(&low, "window")
        || chars_eq_str(&low, "with")
}

/// Whether a name can stand bare in a statement: a letter or underscore,
/// then letters, digits and underscores.
pub open spec fn ident_char(c: char, first: bool) -> bool {
    ('a' <= c && c <= 'z') || ('A' <= c && c <= 'Z') || c == '_' || (!first && '0' <= c && c
        <= '9')
}

/// Whether a whole name can stand bare.
pub open spec fn is_bare_ident(s: Seq<char>) -> bool {
    s.len() > 0 && ident_char(s[0], true) && (forall|j: int|
        1 <= j < s.len() ==> ident_char(s[j], false))
}

/// A quoted-name body: every backtick doubled.
pub open spec fn backtick_doubled(s: Seq<char>) -> Seq<char>
    decreases s.len(),
{
    if s.len() == 0 {
        Seq::empty()
    } else {
        (if s[0] == '`' {
            seq!['`', '`']
        } else {
            seq![s[0]]
        }) + backtick_doubled(s.drop_first())
    }
}

/// How a name renders in a statement: bare when it is a plain identifier
/// and not a reserved keyword, else inside backticks with embedded
/// backticks doubled.
pub open spec fn quoted_name(s: Seq<char>) -> Seq<char> {
    if is_bare_ident(s) && !is_reserved(s) {
        s
    } else {
        seq!['`'] + backtick_doubled(s) + seq!['`']
    }
}

/// Quote a name for use in a statement.
pub fn quote_name(name: &str) -> (r: String)
    ensures
        r@ == quoted_name(name@),
{
    let cs = str_chars(name);
    let n = cs.len();
    let mut bare = n > 0;
    let mut i: usize = 0;
    while i < n
        invariant
            i <= n,
            n == cs@.len(),
            cs@ == name@,
            (n > 0 && i > 0) ==> bare == (ident_char(name@[0], true) && (forall|j: int|
                1 <= j < i ==> ident_char(name@[j], false))),
            i == 0 ==> bare == (n > 0),
            n == 0 ==> !bare,
        decreases n - i,
    {
        let c = cs[i];
        let ok = if i == 0 {
            ('a' <= c && c <= 'z') || ('A' <= c && c <= 'Z') || c == '_'
        } else {
            ('a' <= c && c <= 'z') || ('A' <= c && c <= 'Z') || c == '_' || ('0' <= c && c
                <= '9')
        };
        if !ok {
            bare = false;
            proof {
                if i == 0 {
                    assert(!ident_char(name@[0], true));
                } else {
                    assert(!ident_char(name@[i as int], false));
                }
            }
            i = n;
        } else {
            i = i + 1;
        }
    }
    if bare {
        proof {
            assert(is_bare_ident(name@));
        }
        if !is_reserved_keyword(name) {
            return name.to_owned();
        }
    }
    proof {
        assert(!(is_bare_ident(name@) && !is_reserved(name@)));
    }
    let mut out: Vec<char> = Vec::new();
    out.push('`');
    let mut i2: usize = 0;
    while i2 < n
        invariant
            i2 <= n,
            n == cs@.len(),
            cs@ == name@,
            out@ == seq!['`'] + backtick_doubled(name@.take(i2 as int)),
        decreases n - i2,
    {
        let c = cs[i2];
        if c == '`' {
            out.push('`');
            out.push('`');
        } else {
            out.push(c);
        }
        proof {
            lemma_backtick_snoc(name@, i2 as int);
            assert(out@ =~= seq!['`'] + backtick_doubled(name@.take(i2 as int + 1)));
        }
        i2 = i2 + 1;
    }
    out.push('`');
    proof {
        assert(name@.take(n as int) =~= name@);
        assert(out@ =~= seq!['`'] + backtick_doubled(name@) + seq!['`']);
    }
    chars_to_string(&out)
}

/// Doubling one more character extends the doubled prefix.
proof fn lemma_backtick_snoc(s: Seq<char>, i: int)
    requires
        0 <= i < s.len(),
    ensures
        backtick_doubled(s.take(i + 1)) == backtick_doubled(s.take(i)) + (if s[i] == '`' {
            seq!['`', '`']
        } else {
            seq![s[i]]
        }),
    decreases i,
{
    if i == 0 {
        assert(s.take(1)[0] == s[0]);
        assert(s.take(1).drop_first() =~= Seq::<char>::empty());
        assert(backtick_doubled(s.take(1).drop_first()) == Seq::<char>::empty());
        assert(backtick_doubled(s.take(0)) == Seq::<char>::empty());
        assert(backtick_doubled(s.take(1)) == (if s[0] == '`' {
            seq!['`', '`']
        } else {
            seq![s[0]]
        }) + Seq::<char>::empty());
        assert(backtick_doubled(s.take(1)) =~= Seq::<char>::empty() + (if s[0] == '`' {
            seq!['`', '`']
        } else {
            seq![s[0]]
        }));
    } else {
        lemma_backtick_snoc(s.drop_first(), i - 1);
        assert(s.take(i + 1)[0] == s[0]);
        assert(s.take(i + 1).drop_first() =~= s.drop_first().take(i));
        assert(s.take(i).drop_first() =~= s.drop_first().take(i - 1));
        assert(s.drop_first()[i - 1] == s[i]);
        let h: Seq<char> = if s[0] == '`' {
            seq!['`', '`']
        } else {
            seq![s[0]]
        };
        let x: Seq<char> = if s[i] == '`' {
            seq!['`', '`']
        } else {
            seq![s[i]]
        };
        assert(backtick_doubled(s.take(i + 1)) == h + backtick_doubled(s.drop_first().take(i)));
        assert(backtick_doubled(s.take(i)) == h + backtick_doubled(s.drop_first().take(i - 1)));
        assert(h + (backtick_doubled(s.drop_first().take(i - 1)) + x) =~= (h + backtick_doubled(
            s.drop_first().take(i - 1),
        )) + x);
    }
}

/// The statement that creates a database, its name quoted as needed.
pub fn create_database_stmt(db: &str) -> (r: String)
    ensures
        r@ == "CREATE DATABASE "@ + quoted_name(db@),
{
    let q = quote_name(db);
    "CREATE DATABASE ".to_owned().concat(q.as_str())
}

/// Whether a database must be created before restoring into it: it is
/// missing from the list of existing databases.
pub fn should_create_database(db: &str, existing: &Vec<String>) -> (r: bool)
    ensures
        r == !(exists|j: int| 0 <= j < existing@.len() && existing@[j]@ == db@),
{
    let n = existing.len();
    let mut i: usize = 0;
    while i < n
        invariant
            i <= n,
            n == existing@.len(),
            forall|j: int| 0 <= j < i ==> existing@[j]@ != db@,
        decreases n - i,
    {
        if str_eq(existing[i].as_str(), db) {
            return false;
        }
        i = i + 1;
    }
    true
}

} // verus!
