//! The outbound bridge: chat-originated messages framed as canonical JSON
//! envelopes for publication on the broker.
//!
//! The encoder is canonical: members in declaration order, no whitespace,
//! strings escaped with `\"`, `\\`, the short control escapes and `\u00XX`
//! for the remaining control bytes.  `parse_outbound_message` reads exactly
//! that canonical form back.

use vstd::prelude::*;
use vstd::string::StringSliceAdditionalSpecFns;
use crate::json::{QUOTE, BACKSLASH, lit_true, lit_false, lit_null};

verus! {

/// One attachment carried by a chat message.
#[derive(Debug, Clone, PartialEq, Eq)]
pub struct MessageAttachment {
    pub id: u64,
    pub filename: Vec<u8>,
    pub height: Option<u64>,
    pub proxy_url: Vec<u8>,
    pub size: u64,
    pub url: Vec<u8>,
    pub width: Option<u64>,
    pub content_type: Option<Vec<u8>>,
    pub ephemeral: bool,
}

/// The spec-level form of an attachment.
pub struct MessageAttachmentV {
    pub id: u64,
    pub filename: Seq<u8>,
    pub height: Option<u64>,
    pub proxy_url: Seq<u8>,
    pub size: u64,
    pub url: Seq<u8>,
    pub width: Option<u64>,
    pub content_type: Option<Seq<u8>>,
    pub ephemeral: bool,
}

impl View for MessageAttachment {
    type V = MessageAttachmentV;

    open spec fn view(&self) -> MessageAttachmentV {
        MessageAttachmentV {
            id: self.id,
            filename: self.filename@,
            height: self.height,
            proxy_url: self.proxy_url@,
            size: self.size,
            url: self.url@,
            width: self.width,
            content_type: match self.content_type {
                Some(ref t) => Some(t@),
                None => None,
            },
            ephemeral: self.ephemeral,
        }
    }
}

/// A chat message observed on the chat platform, in the simplified form the
/// bridge publishes.
#[derive(Debug, Clone, PartialEq, Eq)]
pub struct OutboundChatMessage {
    pub message_id: u64,
    pub author_id: u64,
    pub is_author_bot: bool,
    pub channel_id: u64,
    pub content: Vec<u8>,
    pub attachments: Vec<MessageAttachment>,
}

/// The spec-level form of an outbound message.
pub struct OutboundChatMessageV {
    pub message_id: u64,
    pub author_id: u64,
    pub is_author_bot: bool,
    pub channel_id: u64,
    pub content: Seq<u8>,
    pub attachments: Seq<MessageAttachmentV>,
}

impl View for OutboundChatMessage {
    type V = OutboundChatMessageV;

    open spec fn view(&self) -> OutboundChatMessageV {
        OutboundChatMessageV {
            message_id: self.message_id,
            author_id: self.author_id,
            is_author_bot: self.is_author_bot,
            channel_id: self.channel_id,
            content: self.content@,
            attachments: Seq::new(self.attachments@.len(), |i: int| self.attachments@[i]@),
        }
    }
}

/// The decimal digits of `n`, most significant first.
pub open spec fn spec_dec_nat(n: nat) -> Seq<u8>
    decreases n,
{
    if n < 10 {
        seq![(48 + n) as u8]
    } else {
        spec_dec_nat(n / 10) + seq![(48 + n % 10) as u8]
    }
}

/// The byte for a hexadecimal digit, lowercase.
pub open spec fn spec_hex_digit(d: u8) -> u8 {
    if d < 10 {
        (48 + d) as u8
    } else {
        (87 + d) as u8
    }
}

/// How one byte of string content is written: itself, a two-byte escape, or
/// `\u00XX` for the control bytes with no short escape.
pub open spec fn spec_esc_byte(b: u8) -> Seq<u8> {
    if b == QUOTE {
        seq![BACKSLASH, QUOTE]
    } else if b == BACKSLASH {
        seq![BACKSLASH, BACKSLASH]
    } else if b == 8 {
        seq![BACKSLASH, 98u8]  // \b
    } else if b == 9 {
        seq![BACKSLASH, 116u8]  // \t
    } else if b == 10 {
        seq![BACKSLASH, 110u8]  // \n
    } else if b == 12 {
        seq![BACKSLASH, 102u8]  // \f
    } else if b == 13 {
        seq![BACKSLASH, 114u8]  // \r
    } else if b < 32 {
        seq![BACKSLASH, 117u8, 48u8, 48u8, spec_hex_digit(b / 16), spec_hex_digit(b % 16)]
    } else {
        seq![b]
    }
}

/// Escaped string content, byte for byte.
pub open spec fn spec_esc(s: Seq<u8>) -> Seq<u8>
    decreases s.len(),
{
    if s.len() == 0 {
        Seq::empty()
    } else {
        spec_esc_byte(s[0]) + spec_esc(s.skip(1))
    }
}

/// A string value: quoted, escaped content.
pub open spec fn spec_enc_str(s: Seq<u8>) -> Seq<u8> {
    seq![QUOTE] + spec_esc(s) + seq![QUOTE]
}

pub open spec fn spec_enc_bool(b: bool) -> Seq<u8> {
    if b {
        lit_true()
    } else {
        lit_false()
    }
}

pub open spec fn spec_enc_opt_u64(o: Option<u64>) -> Seq<u8> {
    match o {
        Some(n) => spec_dec_nat(n as nat),
        None => lit_null(),
    }
}

pub open spec fn spec_enc_opt_str(o: Option<Seq<u8>>) -> Seq<u8> {
    match o {
        Some(s) => spec_enc_str(s),
        None => lit_null(),
    }
}

/// One attachment object, members in declaration order.
pub open spec fn spec_enc_attachment(a: MessageAttachmentV) -> Seq<u8> {
    "{\"id\":".spec_bytes() + spec_dec_nat(a.id as nat) + ",\"filename\":".spec_bytes()
        + spec_enc_str(a.filename) + ",\"height\":".spec_bytes() + spec_enc_opt_u64(a.height)
        + ",\"proxy_url\":".spec_bytes() + spec_enc_str(a.proxy_url) + ",\"size\":".spec_bytes()
        + spec_dec_nat(a.size as nat) + ",\"url\":".spec_bytes() + spec_enc_str(a.url)
        + ",\"width\":".spec_bytes() + spec_enc_opt_u64(a.width) + ",\"content_type\":".spec_bytes()
        + spec_enc_opt_str(a.content_type) + ",\"ephemeral\":".spec_bytes() + spec_enc_bool(
        a.ephemeral,
    ) + "}".spec_bytes()
}

/// The attachments after the first, each preceded by a comma.
pub open spec fn spec_enc_att_tail(l: Seq<MessageAttachmentV>) -> Seq<u8>
    decreases l.len(),
{
    if l.len() == 0 {
        Seq::empty()
    } else {
        seq![crate::json::COMMA] + spec_enc_attachment(l[0]) + spec_enc_att_tail(l.skip(1))
    }
}

/// The attachments array.
pub open spec fn spec_enc_attachments(l: Seq<MessageAttachmentV>) -> Seq<u8> {
    if l.len() == 0 {
        "[]".spec_bytes()
    } else {
        seq![crate::json::LBRACKET] + spec_enc_attachment(l[0]) + spec_enc_att_tail(l.skip(1))
            + seq![crate::json::RBRACKET]
    }
}

/// The canonical JSON envelope of an outbound message.
pub open spec fn spec_enc_msg(m: OutboundChatMessageV) -> Seq<u8> {
    "{\"message_id\":".spec_bytes() + spec_dec_nat(m.message_id as nat)
        + ",\"author_id\":".spec_bytes() + spec_dec_nat(m.author_id as nat)
        + ",\"is_author_bot\":".spec_bytes() + spec_enc_bool(m.is_author_bot)
        + ",\"channel_id\":".spec_bytes() + spec_dec_nat(m.channel_id as nat)
        + ",\"content\":".spec_bytes() + spec_enc_str(m.content)
        + ",\"attachments\":".spec_bytes() + spec_enc_attachments(m.attachments)
        + "}".spec_bytes()
}

/// Writes the decimal digits of `n`.
fn write_u64(dst: &mut Vec<u8>, n: u64)
    ensures
        final(dst)@ == old(dst)@ + spec_dec_nat(n as nat),
    decreases n,
{
    if n < 10 {
        dst.push(48 + n as u8);
        proof {
            assert(final(dst)@ =~= old(dst)@ + spec_dec_nat(n as nat));
        }
    } else {
        let ghost d0 = dst@;
        write_u64(dst, n / 10);
        dst.push(48 + (n % 10) as u8);
        proof {
            assert(final(dst)@ =~= d0 + spec_dec_nat(n as nat));
        }
    }
}

/// One content byte of `spec_esc(s.take(i + 1))` more than of
/// `spec_esc(s.take(i))`.
proof fn lemma_esc_step(s: Seq<u8>, i: int)
    requires
        0 <= i < s.len(),
    ensures
        spec_esc(s.take(i + 1)) =~= spec_esc(s.take(i)) + spec_esc_byte(s[i]),
    decreases i,
{
    if i == 0 {
        assert(s.take(1) =~= seq![s[0]]);
        assert(s.take(1).skip(1) =~= Seq::<u8>::empty());
        assert(s.take(0) =~= Seq::<u8>::empty());
        assert(spec_esc(Seq::<u8>::empty()) =~= Seq::<u8>::empty());
        assert(spec_esc(s.take(1)) =~= spec_esc_byte(s[0]));
    } else {
        lemma_esc_step(s.skip(1), i - 1);
        assert(s.take(i + 1)[0] == s[0]);
        assert(s.take(i + 1).skip(1) =~= s.skip(1).take(i));
        assert(s.take(i)[0] == s[0]);
        assert(s.take(i).skip(1) =~= s.skip(1).take(i - 1));
        assert(s.skip(1)[i - 1] == s[i]);
        assert(spec_esc(s.take(i + 1)) =~= spec_esc_byte(s[0]) + spec_esc(s.skip(1).take(i)));
        assert(spec_esc(s.take(i)) =~= spec_esc_byte(s[0]) + spec_esc(s.skip(1).take(i - 1)));
        assert(spec_esc(s.skip(1).take(i)) =~= spec_esc(s.skip(1).take(i - 1)) + spec_esc_byte(
            s[i],
        ));
        assert(spec_esc(s.take(i + 1)) =~= (spec_esc_byte(s[0]) + spec_esc(s.skip(1).take(i - 1)))
            + spec_esc_byte(s[i]));
    }
}

/// Writes one quoted, escaped string value.
fn write_str(dst: &mut Vec<u8>, s: &[u8])
    ensures
        final(dst)@ == old(dst)@ + spec_enc_str(s@),
{
    let ghost d0 = dst@;
    dst.push(QUOTE);
    let mut i: usize = 0;
    while i < s.len()
        invariant
            0 <= i <= s@.len(),
            dst@ =~= d0 + seq![QUOTE] + spec_esc(s@.take(i as int)),
        decreases s@.len() - i,
    {
        let b = s[i];
        proof {
            lemma_esc_step(s@, i as int);
        }
        if b == QUOTE {
            dst.push(BACKSLASH);
            dst.push(QUOTE);
        } else if b == BACKSLASH {
            dst.push(BACKSLASH);
            dst.push(BACKSLASH);
        } else if b == 8 {
            dst.push(BACKSLASH);
            dst.push(98);
        } else if b == 9 {
            dst.push(BACKSLASH);
            dst.push(116);
        } else if b == 10 {
            dst.push(BACKSLASH);
            dst.push(110);
        } else if b == 12 {
            dst.push(BACKSLASH);
            dst.push(102);
        } else if b == 13 {
            dst.push(BACKSLASH);
            dst.push(114);
        } else if b < 32 {
            dst.push(BACKSLASH);
            dst.push(117);
            dst.push(48);
            dst.push(48);
            let hi = b / 16;
            let lo = b % 16;
            dst.push(if hi < 10 {
                48 + hi
            } else {
                87 + hi
            });
            dst.push(if lo < 10 {
                48 + lo
            } else {
                87 + lo
            });
        } else {
            dst.push(b);
        }
        proof {
            assert(dst@ =~= d0 + seq![QUOTE] + spec_esc(s@.take(i as int + 1)));
        }
        i += 1;
    }
    proof {
        assert(s@.take(s@.len() as int) =~= s@);
    }
    dst.push(QUOTE);
    proof {
        assert(dst@ =~= d0 + spec_enc_str(s@));
    }
}

/// Writes `true`, `false` or `null`.
fn write_bool(dst: &mut Vec<u8>, b: bool)
    ensures
        final(dst)@ == old(dst)@ + spec_enc_bool(b),
{
    let ghost d0 = dst@;
    if b {
        dst.extend_from_slice("true".as_bytes());
        proof {
            vstd::string::is_ascii_spec_bytes("true");
            reveal_strlit("true");
            assert(dst@ =~= d0 + lit_true());
        }
    } else {
        dst.extend_from_slice("false".as_bytes());
        proof {
            vstd::string::is_ascii_spec_bytes("false");
            reveal_strlit("false");
            assert(dst@ =~= d0 + lit_false());
        }
    }
}

fn write_null(dst: &mut Vec<u8>)
    ensures
        final(dst)@ == old(dst)@ + lit_null(),
{
    let ghost d0 = dst@;
    dst.extend_from_slice("null".as_bytes());
    proof {
        vstd::string::is_ascii_spec_bytes("null");
        reveal_strlit("null");
        assert(dst@ =~= d0 + lit_null());
    }
}

fn write_opt_u64(dst: &mut Vec<u8>, o: &Option<u64>)
    ensures
        final(dst)@ == old(dst)@ + spec_enc_opt_u64(*o),
{
    match o {
        Some(n) => write_u64(dst, *n),
        None => write_null(dst),
    }
}

fn write_opt_str(dst: &mut Vec<u8>, o: &Option<Vec<u8>>)
    ensures
        final(dst)@ == old(dst)@ + spec_enc_opt_str(
            match o {
                Some(s) => Some(s@),
                None => None,
            },
        ),
{
    match o {
        Some(s) => write_str(dst, s.as_slice()),
        None => write_null(dst),
    }
}

/// Appends one byte.
fn push_byte(dst: &mut Vec<u8>, b: u8)
    ensures
        final(dst)@ == old(dst)@ + seq![b],
{
    dst.push(b);
    proof {
        assert(final(dst)@ =~= old(dst)@ + seq![b]);
    }
}

/// Writes one attachment object.
fn write_attachment(dst: &mut Vec<u8>, a: &MessageAttachment)
    ensures
        final(dst)@ == old(dst)@ + spec_enc_attachment(a@),
{
    let ghost d0 = dst@;
    let ghost mut p: Seq<u8> = Seq::empty();
    dst.extend_from_slice("{\"id\":".as_bytes());
    proof {
        p = "{\"id\":".spec_bytes();
    }
    write_u64(dst, a.id);
    proof {
        vstd::seq_lib::lemma_concat_associative(d0, p, spec_dec_nat(a.id as nat));
        p = p + spec_dec_nat(a.id as nat);
        assert(dst@ == d0 + p);
    }
    dst.extend_from_slice(",\"filename\":".as_bytes());
    write_str(dst, a.filename.as_slice());
    proof {
        vstd::seq_lib::lemma_concat_associative(d0, p, ",\"filename\":".spec_bytes());
        p = p + ",\"filename\":".spec_bytes();
        vstd::seq_lib::lemma_concat_associative(d0, p, spec_enc_str(a.filename@));
        p = p + spec_enc_str(a.filename@);
        assert(dst@ == d0 + p);
    }
    dst.extend_from_slice(",\"height\":".as_bytes());
    write_opt_u64(dst, &a.height);
    proof {
        vstd::seq_lib::lemma_concat_associative(d0, p, ",\"height\":".spec_bytes());
        p = p + ",\"height\":".spec_bytes();
        vstd::seq_lib::lemma_concat_associative(d0, p, spec_enc_opt_u64(a.height));
        p = p + spec_enc_opt_u64(a.height);
        assert(dst@ == d0 + p);
    }
    dst.extend_from_slice(",\"proxy_url\":".as_bytes());
    write_str(dst, a.proxy_url.as_slice());
    proof {
        vstd::seq_lib::lemma_concat_associative(d0, p, ",\"proxy_url\":".spec_bytes());
        p = p + ",\"proxy_url\":".spec_bytes();
        vstd::seq_lib::lemma_concat_associative(d0, p, spec_enc_str(a.proxy_url@));
        p = p + spec_enc_str(a.proxy_url@);
        assert(dst@ == d0 + p);
    }
    dst.extend_from_slice(",\"size\":".as_bytes());
    write_u64(dst, a.size);
    proof {
        vstd::seq_lib::lemma_concat_associative(d0, p, ",\"size\":".spec_bytes());
        p = p + ",\"size\":".spec_bytes();
        vstd::seq_lib::lemma_concat_associative(d0, p, spec_dec_nat(a.size as nat));
        p = p + spec_dec_nat(a.size as nat);
        assert(dst@ == d0 + p);
    }
    dst.extend_from_slice(",\"url\":".as_bytes());
    write_str(dst, a.url.as_slice());
    proof {
        vstd::seq_lib::lemma_concat_associative(d0, p, ",\"url\":".spec_bytes());
        p = p + ",\"url\":".spec_bytes();
        vstd::seq_lib::lemma_concat_associative(d0, p, spec_enc_str(a.url@));
        p = p + spec_enc_str(a.url@);
        assert(dst@ == d0 + p);
    }
    dst.extend_from_slice(",\"width\":".as_bytes());
    write_opt_u64(dst, &a.width);
    proof {
        vstd::seq_lib::lemma_concat_associative(d0, p, ",\"width\":".spec_bytes());
        p = p + ",\"width\":".spec_bytes();
        vstd::seq_lib::lemma_concat_associative(d0, p, spec_enc_opt_u64(a.width));
        p = p + spec_enc_opt_u64(a.width);
        assert(dst@ == d0 + p);
    }
    dst.extend_from_slice(",\"content_type\":".as_bytes());
    write_opt_str(dst, &a.content_type);
    proof {
        vstd::seq_lib::lemma_concat_associative(d0, p, ",\"content_type\":".spec_bytes());
        p = p + ",\"content_type\":".spec_bytes();
        vstd::seq_lib::lemma_concat_associative(d0, p, spec_enc_opt_str(a@.content_type));
        p = p + spec_enc_opt_str(a@.content_type);
        assert(dst@ == d0 + p);
    }
    dst.extend_from_slice(",\"ephemeral\":".as_bytes());
    write_bool(dst, a.ephemeral);
    dst.extend_from_slice("}".as_bytes());
    proof {
        vstd::seq_lib::lemma_concat_associative(d0, p, ",\"ephemeral\":".spec_bytes());
        p = p + ",\"ephemeral\":".spec_bytes();
        vstd::seq_lib::lemma_concat_associative(d0, p, spec_enc_bool(a.ephemeral));
        p = p + spec_enc_bool(a.ephemeral);
        vstd::seq_lib::lemma_concat_associative(d0, p, "}".spec_bytes());
        p = p + "}".spec_bytes();
        assert(dst@ == d0 + p);
        assert(p == spec_enc_attachment(a@));
    }
}

/// Serializes an outbound message into its canonical JSON envelope.
pub fn encode_outbound_message(m: &OutboundChatMessage) -> (r: Vec<u8>)
    ensures
        r@ == spec_enc_msg(m@),
{
    let mut dst: Vec<u8> = Vec::new();
    let ghost mut p: Seq<u8> = Seq::empty();
    dst.extend_from_slice("{\"message_id\":".as_bytes());
    proof {
        p = "{\"message_id\":".spec_bytes();
        assert(dst@ =~= p);
    }
    write_u64(&mut dst, m.message_id);
    proof {
        p = p + spec_dec_nat(m.message_id as nat);
        assert(dst@ == p);
    }
    dst.extend_from_slice(",\"author_id\":".as_bytes());
    write_u64(&mut dst, m.author_id);
    proof {
        p = p + ",\"author_id\":".spec_bytes() + spec_dec_nat(m.author_id as nat);
        assert(dst@ == p);
    }
    dst.extend_from_slice(",\"is_author_bot\":".as_bytes());
    write_bool(&mut dst, m.is_author_bot);
    proof {
        p = p + ",\"is_author_bot\":".spec_bytes() + spec_enc_bool(m.is_author_bot);
        assert(dst@ == p);
    }
    dst.extend_from_slice(",\"channel_id\":".as_bytes());
    write_u64(&mut dst, m.channel_id);
    proof {
        p = p + ",\"channel_id\":".spec_bytes() + spec_dec_nat(m.channel_id as nat);
        assert(dst@ == p);
    }
    dst.extend_from_slice(",\"content\":".as_bytes());
    write_str(&mut dst, m.content.as_slice());
    proof {
        p = p + ",\"content\":".spec_bytes() + spec_enc_str(m.content@);
        assert(dst@ == p);
    }
    dst.extend_from_slice(",\"attachments\":".as_bytes());
    proof {
        p = p + ",\"attachments\":".spec_bytes();
        assert(dst@ == p);
    }
    let ghost l = m@.attachments;
    if m.attachments.len() == 0 {
        dst.extend_from_slice("[]".as_bytes());
        proof {
            assert(l.len() == 0);
            p = p + spec_enc_attachments(l);
            assert(dst@ == p);
        }
    } else {
        push_byte(&mut dst, crate::json::LBRACKET);
        write_attachment(&mut dst, &m.attachments[0]);
        let ghost dfirst = dst@;
        proof {
            assert(m.attachments@[0]@ == l[0]);
            assert(dfirst == ((p + seq![crate::json::LBRACKET]) + spec_enc_attachment(l[0])));
        }
        let ghost mut q: Seq<u8> = spec_enc_att_tail_upto(l, 1);
        proof {
            assert(q =~= Seq::<u8>::empty());
            assert(dst@ =~= dfirst + q);
        }
        let mut k: usize = 1;
        while k < m.attachments.len()
            invariant
                1 <= k <= m.attachments@.len(),
                l == Seq::new(m.attachments@.len(), |i: int| m.attachments@[i]@),
                l.len() == m.attachments@.len(),
                q == spec_enc_att_tail_upto(l, k as int),
                dst@ == dfirst + q,
            decreases m.attachments@.len() - k,
        {
            push_byte(&mut dst, crate::json::COMMA);
            write_attachment(&mut dst, &m.attachments[k]);
            proof {
                assert(m.attachments@[k as int]@ == l[k as int]);
                vstd::seq_lib::lemma_concat_associative(dfirst, q, seq![crate::json::COMMA]);
                q = q + seq![crate::json::COMMA];
                vstd::seq_lib::lemma_concat_associative(dfirst, q, spec_enc_attachment(l[k as int]));
                q = q + spec_enc_attachment(l[k as int]);
                assert(dst@ == dfirst + q);
            }
            k += 1;
        }
        push_byte(&mut dst, crate::json::RBRACKET);
        proof {
            lemma_att_tail_full(l);
            assert(spec_enc_att_tail(l.skip(1)) == q);
            let lb = seq![crate::json::LBRACKET];
            let rb = seq![crate::json::RBRACKET];
            let enc0 = spec_enc_attachment(l[0]);
            assert(dst@ == (((p + lb) + enc0) + q) + rb);
            vstd::seq_lib::lemma_concat_associative(p, lb, enc0);
            vstd::seq_lib::lemma_concat_associative(p, lb + enc0, q);
            vstd::seq_lib::lemma_concat_associative(p, (lb + enc0) + q, rb);
            assert(dst@ == p + (((lb + enc0) + q) + rb));
            assert(((lb + enc0) + q) + rb == spec_enc_attachments(l));
            p = p + spec_enc_attachments(l);
            assert(dst@ == p);
        }
    }
    dst.extend_from_slice("}".as_bytes());
    proof {
        p = p + "}".spec_bytes();
        assert(dst@ == p);
        assert(p == spec_enc_msg(m@));
    }
    dst
}

/// The comma-preceded encodings of the attachments in `[1, k)`.
pub open spec fn spec_enc_att_tail_upto(l: Seq<MessageAttachmentV>, k: int) -> Seq<u8>
    decreases k,
{
    if k <= 1 {
        Seq::empty()
    } else {
        spec_enc_att_tail_upto(l, k - 1) + seq![crate::json::COMMA] + spec_enc_attachment(l[k - 1])
    }
}

/// Walking the tail front to back and accumulating left to right agree.
#[verifier::rlimit(50)]
#[verifier::spinoff_prover]
proof fn lemma_att_tail_upto_shift(l: Seq<MessageAttachmentV>, k: int)
    requires
        1 <= k <= l.len(),
    ensures
        spec_enc_att_tail(l.skip(1)) =~= spec_enc_att_tail_upto(l, k) + spec_enc_att_tail(
            l.skip(k),
        ),
    decreases k,
{
    let c = seq![crate::json::COMMA];
    if k == 1 {
        assert(spec_enc_att_tail_upto(l, 1) + spec_enc_att_tail(l.skip(1)) =~= spec_enc_att_tail(
            l.skip(1),
        ));
    } else {
        lemma_att_tail_upto_shift(l, k - 1);
        let u = spec_enc_att_tail_upto(l, k - 1);
        let e = spec_enc_attachment(l[k - 1]);
        let t = spec_enc_att_tail(l.skip(k));
        assert(l.skip(k - 1)[0] == l[k - 1]);
        assert(l.skip(k - 1).skip(1) =~= l.skip(k));
        assert(spec_enc_att_tail(l.skip(k - 1)) == (c + e) + t);
        vstd::seq_lib::lemma_concat_associative(u, c, e);
        vstd::seq_lib::lemma_concat_associative(u, c + e, t);
        assert(spec_enc_att_tail(l.skip(1)) == u + ((c + e) + t));
        assert(spec_enc_att_tail_upto(l, k) == (u + c) + e);
        assert(u + ((c + e) + t) == ((u + c) + e) + t);
    }
}

proof fn lemma_att_tail_full(l: Seq<MessageAttachmentV>)
    requires
        l.len() >= 1,
    ensures
        spec_enc_att_tail(l.skip(1)) =~= spec_enc_att_tail_upto(l, l.len() as int),
{
    lemma_att_tail_upto_shift(l, l.len() as int);
    assert(l.skip(l.len() as int) =~= Seq::<MessageAttachmentV>::empty());
}

/// The topic the canonical envelope is published on, derived from the base
/// topic.
pub fn outbound_topic(base: &[u8]) -> (r: Vec<u8>)
    ensures
        r@ == base@ + "/new_message/v1".spec_bytes(),
{
    let mut r = crate::filter::slice_to_vec(base);
    r.extend_from_slice("/new_message/v1".as_bytes());
    r
}

/// The topic the chat platform's own message format is mirrored on.
pub fn outbound_native_topic(base: &[u8]) -> (r: Vec<u8>)
    ensures
        r@ == base@ + "/new_message/serenity_format/v1".spec_bytes(),
{
    let mut r = crate::filter::slice_to_vec(base);
    r.extend_from_slice("/new_message/serenity_format/v1".as_bytes());
    r
}

/// The position just past `lit`, read at `i`.
pub open spec fn spec_expect(b: Seq<u8>, i: int, lit: Seq<u8>) -> Option<int> {
    if 0 <= i && i + lit.len() <= b.len() && b.subrange(i, i + lit.len()) == lit {
        Some(i + lit.len())
    } else {
        None
    }
}

/// An unsigned decimal read at `i`: the digits up to the first non-digit, no
/// leading zero, value within `u64`.
pub open spec fn spec_read_u64(b: Seq<u8>, i: int) -> Option<(u64, int)> {
    if 0 <= i <= b.len() {
        let j = crate::json::spec_scan_digits(b, i);
        if i < j && (b[i] == 48 ==> j == i + 1) && crate::json::spec_digits_value(b, i, j)
            <= u64::MAX {
            Some((crate::json::spec_digits_value(b, i, j) as u64, j))
        } else {
            None
        }
    } else {
        None
    }
}

/// `true` or `false` read at `i`.
pub open spec fn spec_read_bool(b: Seq<u8>, i: int) -> Option<(bool, int)> {
    match crate::json::spec_scan_true(b, i) {
        Some(j) => Some((true, j)),
        None => match crate::json::spec_scan_false(b, i) {
            Some(j) => Some((false, j)),
            None => None,
        },
    }
}

/// A quoted string read at `i`: its decoded bytes.
pub open spec fn spec_read_str(b: Seq<u8>, i: int) -> Option<(Seq<u8>, int)> {
    if 0 <= i < b.len() && b[i] == QUOTE {
        crate::json::spec_decode_string(b, i + 1)
    } else {
        None
    }
}

/// A decimal or `null` read at `i`.
pub open spec fn spec_read_opt_u64(b: Seq<u8>, i: int) -> Option<(Option<u64>, int)> {
    match crate::json::spec_scan_null(b, i) {
        Some(j) => Some((None, j)),
        None => match spec_read_u64(b, i) {
            Some((n, j)) => Some((Some(n), j)),
            None => None,
        },
    }
}

/// A quoted string or `null` read at `i`.
pub open spec fn spec_read_opt_str(b: Seq<u8>, i: int) -> Option<(Option<Seq<u8>>, int)> {
    match crate::json::spec_scan_null(b, i) {
        Some(j) => Some((None, j)),
        None => match spec_read_str(b, i) {
            Some((s, j)) => Some((Some(s), j)),
            None => None,
        },
    }
}

/// One canonical attachment object read at `i`.
pub open spec fn spec_read_attachment(b: Seq<u8>, i: int) -> Option<(MessageAttachmentV, int)> {
    match spec_expect(b, i, "{\"id\":".spec_bytes()) {
        None => None,
        Some(p) => match spec_read_u64(b, p) {
            None => None,
            Some((id, p)) => match spec_expect(b, p, ",\"filename\":".spec_bytes()) {
                None => None,
                Some(p) => match spec_read_str(b, p) {
                    None => None,
                    Some((filename, p)) => match spec_expect(b, p, ",\"height\":".spec_bytes()) {
                        None => None,
                        Some(p) => match spec_read_opt_u64(b, p) {
                            None => None,
                            Some((height, p)) => match spec_expect(
                                b,
                                p,
                                ",\"proxy_url\":".spec_bytes(),
                            ) {
                                None => None,
                                Some(p) => match spec_read_str(b, p) {
                                    None => None,
                                    Some((proxy_url, p)) => match spec_expect(
                                        b,
                                        p,
                                        ",\"size\":".spec_bytes(),
                                    ) {
                                        None => None,
                                        Some(p) => match spec_read_u64(b, p) {
                                            None => None,
                                            Some((size, p)) => spec_read_attachment_rest(
                                                b,
                                                p,
                                                id,
                                                filename,
                                                height,
                                                proxy_url,
                                                size,
                                            ),
                                        },
                                    },
                                },
                            },
                        },
                    },
                },
            },
        },
    }
}

/// The members of an attachment object after `size`.
pub open spec fn spec_read_attachment_rest(
    b: Seq<u8>,
    i: int,
    id: u64,
    filename: Seq<u8>,
    height: Option<u64>,
    proxy_url: Seq<u8>,
    size: u64,
) -> Option<(MessageAttachmentV, int)> {
    match spec_expect(b, i, ",\"url\":".spec_bytes()) {
        None => None,
        Some(p) => match spec_read_str(b, p) {
            None => None,
            Some((url, p)) => match spec_expect(b, p, ",\"width\":".spec_bytes()) {
                None => None,
                Some(p) => match spec_read_opt_u64(b, p) {
                    None => None,
                    Some((width, p)) => match spec_expect(b, p, ",\"content_type\":".spec_bytes()) {
                        None => None,
                        Some(p) => match spec_read_opt_str(b, p) {
                            None => None,
                            Some((content_type, p)) => match spec_expect(
                                b,
                                p,
                                ",\"ephemeral\":".spec_bytes(),
                            ) {
                                None => None,
                                Some(p) => match spec_read_bool(b, p) {
                                    None => None,
                                    Some((ephemeral, p)) => match spec_expect(
                                        b,
                                        p,
                                        "}".spec_bytes(),
                                    ) {
                                        None => None,
                                        Some(p) => Some(
                                            (
                                                MessageAttachmentV {
                                                    id,
                                                    filename,
                                                    height,
                                                    proxy_url,
                                                    size,
                                                    url,
                                                    width,
                                                    content_type,
                                                    ephemeral,
                                                },
                                                p,
                                            ),
                                        ),
                                    },
                                },
                            },
                        },
                    },
                },
            },
        },
    }
}

/// The attachments after the first: `]` ends the array, `,` brings one more.
pub open spec fn spec_read_att_more(b: Seq<u8>, i: int) -> Option<(Seq<MessageAttachmentV>, int)>
    decreases b.len() - i,
{
    if 0 <= i < b.len() {
        if b[i] == crate::json::RBRACKET {
            Some((Seq::empty(), i + 1))
        } else if b[i] == crate::json::COMMA {
            match spec_read_attachment(b, i + 1) {
                None => None,
                Some((a, j)) => {
                    if i < j <= b.len() {
                        match spec_read_att_more(b, j) {
                            None => None,
                            Some((rest, end)) => Some((seq![a] + rest, end)),
                        }
                    } else {
                        None
                    }
                },
            }
        } else {
            None
        }
    } else {
        None
    }
}

/// A canonical attachments array read at `i`.
pub open spec fn spec_read_attachments(b: Seq<u8>, i: int) -> Option<
    (Seq<MessageAttachmentV>, int),
> {
    if 0 <= i < b.len() && b[i] == crate::json::LBRACKET {
        if i + 1 < b.len() && b[i + 1] == crate::json::RBRACKET {
            Some((Seq::empty(), i + 2))
        } else {
            match spec_read_attachment(b, i + 1) {
                None => None,
                Some((a, j)) => {
                    if i < j <= b.len() {
                        match spec_read_att_more(b, j) {
                            None => None,
                            Some((rest, end)) => Some((seq![a] + rest, end)),
                        }
                    } else {
                        None
                    }
                },
            }
        }
    } else {
        None
    }
}

/// Reads a canonical envelope whole: nothing unless every member is in place
/// and the buffer ends with the closing brace.
pub open spec fn spec_dec_msg(b: Seq<u8>) -> Option<OutboundChatMessageV> {
    match spec_expect(b, 0, "{\"message_id\":".spec_bytes()) {
        None => None,
        Some(p) => match spec_read_u64(b, p) {
            None => None,
            Some((message_id, p)) => match spec_expect(b, p, ",\"author_id\":".spec_bytes()) {
                None => None,
                Some(p) => match spec_read_u64(b, p) {
                    None => None,
                    Some((author_id, p)) => match spec_expect(
                        b,
                        p,
                        ",\"is_author_bot\":".spec_bytes(),
                    ) {
                        None => None,
                        Some(p) => match spec_read_bool(b, p) {
                            None => None,
                            Some((is_author_bot, p)) => match spec_expect(
                                b,
                                p,
                                ",\"channel_id\":".spec_bytes(),
                            ) {
                                None => None,
                                Some(p) => match spec_read_u64(b, p) {
                                    None => None,
                                    Some((channel_id, p)) => spec_dec_msg_rest(
                                        b,
                                        p,
                                        message_id,
                                        author_id,
                                        is_author_bot,
                                        channel_id,
                                    ),
                                },
                            },
                        },
                    },
                },
            },
        },
    }
}

/// The members of the envelope after `channel_id`.
pub open spec fn spec_dec_msg_rest(
    b: Seq<u8>,
    i: int,
    message_id: u64,
    author_id: u64,
    is_author_bot: bool,
    channel_id: u64,
) -> Option<OutboundChatMessageV> {
    match spec_expect(b, i, ",\"content\":".spec_bytes()) {
        None => None,
        Some(p) => match spec_read_str(b, p) {
            None => None,
            Some((content, p)) => match spec_expect(b, p, ",\"attachments\":".spec_bytes()) {
                None => None,
                Some(p) => match spec_read_attachments(b, p) {
                    None => None,
                    Some((attachments, p)) => match spec_expect(b, p, "}".spec_bytes()) {
                        None => None,
                        Some(p) => if p == b.len() {
                            Some(
                                OutboundChatMessageV {
                                    message_id,
                                    author_id,
                                    is_author_bot,
                                    channel_id,
                                    content,
                                    attachments,
                                },
                            )
                        } else {
                            None
                        },
                    },
                },
            },
        },
    }
}

/// All bytes up to the first non-digit are digits.
proof fn lemma_scan_digits_all(s: Seq<u8>, i: int)
    requires
        0 <= i <= s.len(),
    ensures
        forall|k: int|
            i <= k < crate::json::spec_scan_digits(s, i) ==> crate::json::is_digit(#[trigger] s[k]),
        i <= crate::json::spec_scan_digits(s, i) <= s.len(),
    decreases s.len() - i,
{
    if i < s.len() && crate::json::is_digit(s[i]) {
        lemma_scan_digits_all(s, i + 1);
    }
}

/// Reads the exact bytes of `lit` at `i`.
fn expect_lit(b: &[u8], i: usize, lit: &str) -> (r: Option<usize>)
    ensures
        r is Some <==> spec_expect(b@, i as int, lit.spec_bytes()) is Some,
        r matches Some(e) ==> spec_expect(b@, i as int, lit.spec_bytes()) == Some(e as int) && i
            <= e <= b@.len(),
{
    let lb = lit.as_bytes();
    if i <= b.len() && b.len() - i >= lb.len() {
        if crate::filter::bytes_eq(&b[i..i + lb.len()], lb) {
            Some(i + lb.len())
        } else {
            None
        }
    } else {
        None
    }
}

/// Reads an unsigned decimal at `i`.
fn read_u64_at(b: &[u8], i: usize) -> (r: Option<(u64, usize)>)
    ensures
        r is Some <==> spec_read_u64(b@, i as int) is Some,
        r matches Some((n, j)) ==> spec_read_u64(b@, i as int) == Some((n, j as int)) && i < j
            <= b@.len(),
{
    if i > b.len() {
        return None;
    }
    let j = crate::json::scan_digits(b, i);
    proof {
        lemma_scan_digits_all(b@, i as int);
    }
    match crate::json::u64_at(b, i, j) {
        Some(n) => Some((n, j)),
        None => None,
    }
}

/// Reads `true` or `false` at `i`.
fn read_bool_at(b: &[u8], i: usize) -> (r: Option<(bool, usize)>)
    requires
        i <= b@.len(),
    ensures
        r is Some <==> spec_read_bool(b@, i as int) is Some,
        r matches Some((v, j)) ==> spec_read_bool(b@, i as int) == Some((v, j as int)) && j
            <= b@.len(),
{
    match crate::json::scan_true(b, i) {
        Some(j) => Some((true, j)),
        None => match crate::json::scan_false(b, i) {
            Some(j) => Some((false, j)),
            None => None,
        },
    }
}

/// Reads a quoted string at `i`.
fn read_str_at(b: &[u8], i: usize) -> (r: Option<(Vec<u8>, usize)>)
    requires
        i <= b@.len(),
    ensures
        r is Some <==> spec_read_str(b@, i as int) is Some,
        r matches Some((s, j)) ==> spec_read_str(b@, i as int) == Some((s@, j as int)) && j
            <= b@.len(),
{
    if i < b.len() && b[i] == QUOTE {
        let mut acc: Vec<u8> = Vec::new();
        proof {
            crate::json::lemma_decode_string_bounds(b@, i as int + 1);
        }
        match crate::json::decode_string(b, i + 1, &mut acc) {
            Some(j) => {
                proof {
                    assert(Seq::<u8>::empty() + crate::json::spec_decode_string(
                        b@,
                        i as int + 1,
                    ).unwrap().0 =~= crate::json::spec_decode_string(b@, i as int + 1).unwrap().0);
                }
                Some((acc, j))
            },
            None => None,
        }
    } else {
        None
    }
}

/// Reads a decimal or `null` at `i`.
fn read_opt_u64_at(b: &[u8], i: usize) -> (r: Option<(Option<u64>, usize)>)
    requires
        i <= b@.len(),
    ensures
        r is Some <==> spec_read_opt_u64(b@, i as int) is Some,
        r matches Some((v, j)) ==> spec_read_opt_u64(b@, i as int) == Some((v, j as int)) && j
            <= b@.len(),
{
    match crate::json::scan_null(b, i) {
        Some(j) => Some((None, j)),
        None => match read_u64_at(b, i) {
            Some((n, j)) => Some((Some(n), j)),
            None => None,
        },
    }
}

/// Reads a quoted string or `null` at `i`.
fn read_opt_str_at(b: &[u8], i: usize) -> (r: Option<(Option<Vec<u8>>, usize)>)
    requires
        i <= b@.len(),
    ensures
        r is Some <==> spec_read_opt_str(b@, i as int) is Some,
        r matches Some((v, j)) ==> spec_read_opt_str(b@, i as int) matches Some((vv, jj))
            && j as int == jj && j <= b@.len() && (match (v, vv) {
            (Some(s), Some(sv)) => s@ == sv,
            (None, None) => true,
            _ => false,
        }),
{
    match crate::json::scan_null(b, i) {
        Some(j) => Some((None, j)),
        None => match read_str_at(b, i) {
            Some((s, j)) => Some((Some(s), j)),
            None => None,
        },
    }
}

/// Reads one canonical attachment object at `i`.
fn read_attachment_at(b: &[u8], i: usize) -> (r: Option<(MessageAttachment, usize)>)
    ensures
        r is Some <==> spec_read_attachment(b@, i as int) is Some,
        r matches Some((a, j)) ==> spec_read_attachment(b@, i as int) == Some((a@, j as int)) && j
            <= b@.len(),
{
    let p = match expect_lit(b, i, "{\"id\":") {
        Some(p) => p,
        None => {
            return None;
        },
    };
    let (id, p) = match read_u64_at(b, p) {
        Some(x) => x,
        None => {
            return None;
        },
    };
    let p = match expect_lit(b, p, ",\"filename\":") {
        Some(p) => p,
        None => {
            return None;
        },
    };
    let (filename, p) = match read_str_at(b, p) {
        Some(x) => x,
        None => {
            return None;
        },
    };
    let p = match expect_lit(b, p, ",\"height\":") {
        Some(p) => p,
        None => {
            return None;
        },
    };
    let (height, p) = match read_opt_u64_at(b, p) {
        Some(x) => x,
        None => {
            return None;
        },
    };
    let p = match expect_lit(b, p, ",\"proxy_url\":") {
        Some(p) => p,
        None => {
            return None;
        },
    };
    let (proxy_url, p) = match read_str_at(b, p) {
        Some(x) => x,
        None => {
            return None;
        },
    };
    let p = match expect_lit(b, p, ",\"size\":") {
        Some(p) => p,
        None => {
            return None;
        },
    };
    let (size, p) = match read_u64_at(b, p) {
        Some(x) => x,
        None => {
            return None;
        },
    };
    read_attachment_rest_at(b, p, id, filename, height, proxy_url, size)
}

/// Reads the members of an attachment object after `size`.
fn read_attachment_rest_at(
    b: &[u8],
    i: usize,
    id: u64,
    filename: Vec<u8>,
    height: Option<u64>,
    proxy_url: Vec<u8>,
    size: u64,
) -> (r: Option<(MessageAttachment, usize)>)
    requires
        i <= b@.len(),
    ensures
        r is Some <==> spec_read_attachment_rest(
            b@,
            i as int,
            id,
            filename@,
            height,
            proxy_url@,
            size,
        ) is Some,
        r matches Some((a, j)) ==> spec_read_attachment_rest(
            b@,
            i as int,
            id,
            filename@,
            height,
            proxy_url@,
            size,
        ) == Some((a@, j as int)) && j <= b@.len(),
{
    let p = match expect_lit(b, i, ",\"url\":") {
        Some(p) => p,
        None => {
            return None;
        },
    };
    let (url, p) = match read_str_at(b, p) {
        Some(x) => x,
        None => {
            return None;
        },
    };
    let p = match expect_lit(b, p, ",\"width\":") {
        Some(p) => p,
        None => {
            return None;
        },
    };
    let (width, p) = match read_opt_u64_at(b, p) {
        Some(x) => x,
        None => {
            return None;
        },
    };
    let p = match expect_lit(b, p, ",\"content_type\":") {
        Some(p) => p,
        None => {
            return None;
        },
    };
    let (content_type, p) = match read_opt_str_at(b, p) {
        Some(x) => x,
        None => {
            return None;
        },
    };
    let p = match expect_lit(b, p, ",\"ephemeral\":") {
        Some(p) => p,
        None => {
            return None;
        },
    };
    let (ephemeral, p) = match read_bool_at(b, p) {
        Some(x) => x,
        None => {
            return None;
        },
    };
    let p = match expect_lit(b, p, "}") {
        Some(p) => p,
        None => {
            return None;
        },
    };
    let a = MessageAttachment {
        id,
        filename,
        height,
        proxy_url,
        size,
        url,
        width,
        content_type,
        ephemeral,
    };
    Some((a, p))
}

/// Reads the attachments after the first.
#[verifier::rlimit(50)]
#[verifier::spinoff_prover]
fn read_att_more_at(b: &[u8], i: usize) -> (r: Option<(Vec<MessageAttachment>, usize)>)
    ensures
        r is Some <==> spec_read_att_more(b@, i as int) is Some,
        r matches Some((v, j)) ==> spec_read_att_more(b@, i as int) == Some(
            (att_views(v@), j as int),
        ) && j <= b@.len(),
    decreases b@.len() - i,
{
    if i >= b.len() {
        return None;
    }
    if b[i] == crate::json::RBRACKET {
        let v: Vec<MessageAttachment> = Vec::new();
        proof {
            assert(att_views(v@) =~= Seq::<MessageAttachmentV>::empty());
        }
        Some((v, i + 1))
    } else if b[i] == crate::json::COMMA {
        let (a, j) = match read_attachment_at(b, i + 1) {
            Some(x) => x,
            None => {
                return None;
            },
        };
        if j > i {
            let (rest, end) = match read_att_more_at(b, j) {
                Some(x) => x,
                None => {
                    return None;
                },
            };
            let ghost av = a@;
            let ghost rest0 = rest@;
            let mut v = rest;
            v.insert(0, a);
            proof {
                assert(v@ =~= seq![a] + rest0);
                assert(att_views(v@) =~= seq![av] + att_views(rest0));
            }
            Some((v, end))
        } else {
            None
        }
    } else {
        None
    }
}

/// The spec-level forms of a row of attachments.
pub open spec fn att_views(v: Seq<MessageAttachment>) -> Seq<MessageAttachmentV> {
    Seq::new(v.len(), |i: int| v[i]@)
}

/// Reads a canonical attachments array at `i`.
#[verifier::rlimit(50)]
#[verifier::spinoff_prover]
fn read_attachments_at(b: &[u8], i: usize) -> (r: Option<(Vec<MessageAttachment>, usize)>)
    ensures
        r is Some <==> spec_read_attachments(b@, i as int) is Some,
        r matches Some((v, j)) ==> spec_read_attachments(b@, i as int) == Some(
            (att_views(v@), j as int),
        ) && j <= b@.len(),
{
    if i >= b.len() || b[i] != crate::json::LBRACKET {
        return None;
    }
    if i + 1 < b.len() && b[i + 1] == crate::json::RBRACKET {
        let v: Vec<MessageAttachment> = Vec::new();
        proof {
            assert(att_views(v@) =~= Seq::<MessageAttachmentV>::empty());
        }
        return Some((v, i + 2));
    }
    let (a, j) = match read_attachment_at(b, i + 1) {
        Some(x) => x,
        None => {
            return None;
        },
    };
    if j > i {
        let (rest, end) = match read_att_more_at(b, j) {
            Some(x) => x,
            None => {
                return None;
            },
        };
        let ghost av = a@;
        let ghost rest0 = rest@;
        let mut v = rest;
        v.insert(0, a);
        proof {
            assert(v@ =~= seq![a] + rest0);
            assert(att_views(v@) =~= seq![av] + att_views(rest0));
        }
        Some((v, end))
    } else {
        None
    }
}

/// Reads a canonical envelope back into an outbound message: exactly the
/// form `encode_outbound_message` writes, and nothing else.
pub fn parse_outbound_message(b: &[u8]) -> (r: Option<OutboundChatMessage>)
    ensures
        r is Some <==> spec_dec_msg(b@) is Some,
        r matches Some(m) ==> spec_dec_msg(b@) == Some(m@),
{
    let p = match expect_lit(b, 0, "{\"message_id\":") {
        Some(p) => p,
        None => {
            return None;
        },
    };
    let (message_id, p) = match read_u64_at(b, p) {
        Some(x) => x,
        None => {
            return None;
        },
    };
    let p = match expect_lit(b, p, ",\"author_id\":") {
        Some(p) => p,
        None => {
            return None;
        },
    };
    let (author_id, p) = match read_u64_at(b, p) {
        Some(x) => x,
        None => {
            return None;
        },
    };
    let p = match expect_lit(b, p, ",\"is_author_bot\":") {
        Some(p) => p,
        None => {
            return None;
        },
    };
    let (is_author_bot, p) = match read_bool_at(b, p) {
        Some(x) => x,
        None => {
            return None;
        },
    };
    let p = match expect_lit(b, p, ",\"channel_id\":") {
        Some(p) => p,
        None => {
            return None;
        },
    };
    let (channel_id, p) = match read_u64_at(b, p) {
        Some(x) => x,
        None => {
            return None;
        },
    };
    parse_outbound_rest(b, p, message_id, author_id, is_author_bot, channel_id)
}

/// Reads the members of the envelope after `channel_id`.
fn parse_outbound_rest(
    b: &[u8],
    i: usize,
    message_id: u64,
    author_id: u64,
    is_author_bot: bool,
    channel_id: u64,
) -> (r: Option<OutboundChatMessage>)
    requires
        i <= b@.len(),
    ensures
        r is Some <==> spec_dec_msg_rest(
            b@,
            i as int,
            message_id,
            author_id,
            is_author_bot,
            channel_id,
        ) is Some,
        r matches Some(m) ==> spec_dec_msg_rest(
            b@,
            i as int,
            message_id,
            author_id,
            is_author_bot,
            channel_id,
        ) == Some(m@),
{
    let p = match expect_lit(b, i, ",\"content\":") {
        Some(p) => p,
        None => {
            return None;
        },
    };
    let (content, p) = match read_str_at(b, p) {
        Some(x) => x,
        None => {
            return None;
        },
    };
    let p = match expect_lit(b, p, ",\"attachments\":") {
        Some(p) => p,
        None => {
            return None;
        },
    };
    let (attachments, p) = match read_attachments_at(b, p) {
        Some(x) => x,
        None => {
            return None;
        },
    };
    let p = match expect_lit(b, p, "}") {
        Some(p) => p,
        None => {
            return None;
        },
    };
    if p == b.len() {
        let m = OutboundChatMessage {
            message_id,
            author_id,
            is_author_bot,
            channel_id,
            content,
            attachments,
        };
        proof {
            assert(m@.attachments =~= att_views(m.attachments@));
        }
        Some(m)
    } else {
        None
    }
}

/// The decimal digits of a number: at least one, all digits, and a leading
/// zero only for zero itself.
proof fn lemma_dec_nat_shape(n: nat)
    ensures
        spec_dec_nat(n).len() >= 1,
        forall|k: int|
            0 <= k < spec_dec_nat(n).len() ==> crate::json::is_digit(#[trigger] spec_dec_nat(n)[k]),
        n >= 1 ==> spec_dec_nat(n)[0] != 48,
        n < 10 ==> spec_dec_nat(n).len() == 1,
    decreases n,
{
    if n >= 10 {
        lemma_dec_nat_shape(n / 10);
        assert(spec_dec_nat(n) == spec_dec_nat(n / 10) + seq![(48 + n % 10) as u8]);
    }
}

/// Digits written by `spec_dec_nat` read back as the same value.
proof fn lemma_digits_value_of_dec(b: Seq<u8>, i: int, n: nat)
    requires
        0 <= i,
        i + spec_dec_nat(n).len() <= b.len(),
        b.subrange(i, i + spec_dec_nat(n).len()) == spec_dec_nat(n),
    ensures
        crate::json::spec_digits_value(b, i, i + spec_dec_nat(n).len()) == n,
    decreases n,
{
    lemma_dec_nat_shape(n);
    let d = spec_dec_nat(n);
    if n < 10 {
        assert(b[i] == d[0]);
        assert(crate::json::spec_digits_value(b, i, i) == 0);
        assert(crate::json::spec_digits_value(b, i, i + 1) == (b[i] - 48) as nat);
    } else {
        let dh = spec_dec_nat(n / 10);
        assert(d == dh + seq![(48 + n % 10) as u8]);
        assert(b.subrange(i, i + dh.len()) =~= dh) by {
            assert(forall|t: int| 0 <= t < dh.len() ==> b.subrange(i, i + d.len())[t] == d[t]);
        }
        lemma_digits_value_of_dec(b, i, n / 10);
        assert(b[i + d.len() - 1] == d[d.len() - 1]);
        assert(d[d.len() - 1] == (48 + n % 10) as u8);
        assert(crate::json::spec_digits_value(b, i, i + d.len()) == crate::json::spec_digits_value(
            b,
            i,
            i + d.len() - 1,
        ) * 10 + (n % 10));
    }
}

/// Scanning stops exactly at the first non-digit.
proof fn lemma_scan_digits_exact(b: Seq<u8>, i: int, j: int)
    requires
        0 <= i <= j <= b.len(),
        forall|k: int| i <= k < j ==> crate::json::is_digit(#[trigger] b[k]),
        j == b.len() || !crate::json::is_digit(b[j]),
    ensures
        crate::json::spec_scan_digits(b, i) == j,
    decreases j - i,
{
    if i < j {
        lemma_scan_digits_exact(b, i + 1, j);
    }
}

/// A written decimal reads back as the same number.
proof fn lemma_read_u64_here(b: Seq<u8>, i: int, n: u64)
    requires
        0 <= i,
        i + spec_dec_nat(n as nat).len() <= b.len(),
        b.subrange(i, i + spec_dec_nat(n as nat).len()) == spec_dec_nat(n as nat),
        i + spec_dec_nat(n as nat).len() == b.len() || !crate::json::is_digit(
            b[i + spec_dec_nat(n as nat).len()],
        ),
    ensures
        spec_read_u64(b, i) == Some((n, i + spec_dec_nat(n as nat).len())),
{
    lemma_dec_nat_shape(n as nat);
    let d = spec_dec_nat(n as nat);
    let j = i + d.len();
    assert(forall|k: int| i <= k < j ==> b[k] == d[k - i]) by {
        assert(forall|t: int| 0 <= t < d.len() ==> b.subrange(i, j)[t] == d[t]);
    }
    lemma_scan_digits_exact(b, i, j);
    lemma_digits_value_of_dec(b, i, n as nat);
    assert(b[i] == d[0]);
    if b[i] == 48 {
        assert(n == 0) by {
            if n >= 1 {
                assert(d[0] != 48);
            }
        }
    }
}

/// A written boolean reads back as itself.
proof fn lemma_read_bool_here(b: Seq<u8>, i: int, v: bool)
    requires
        0 <= i,
        i + spec_enc_bool(v).len() <= b.len(),
        b.subrange(i, i + spec_enc_bool(v).len()) == spec_enc_bool(v),
    ensures
        spec_read_bool(b, i) == Some((v, i + spec_enc_bool(v).len())),
{
    if v {
        assert(crate::json::spec_scan_true(b, i) == Some(i + 4));
    } else {
        assert(b[i] == 102) by {
            assert(b.subrange(i, i + 5)[0] == lit_false()[0]);
        }
        assert(crate::json::spec_scan_true(b, i) is None) by {
            if b.subrange(i, i + 4) == lit_true() {
                assert(b.subrange(i, i + 4)[0] == 116);
            }
        }
        assert(crate::json::spec_scan_false(b, i) == Some(i + 5));
    }
}

/// A written `null` reads back as nothing-there.
proof fn lemma_scan_null_here(b: Seq<u8>, i: int)
    requires
        0 <= i,
        i + 4 <= b.len(),
        b.subrange(i, i + 4) == lit_null(),
    ensures
        crate::json::spec_scan_null(b, i) == Some(i + 4),
{
}

/// Escaped content reads back byte for byte, stopping at the closing quote.
proof fn lemma_decode_of_esc(b: Seq<u8>, i: int, s: Seq<u8>)
    requires
        0 <= i,
        i + spec_esc(s).len() + 1 <= b.len(),
        b.subrange(i, i + spec_esc(s).len() + 1) == spec_esc(s) + seq![QUOTE],
    ensures
        crate::json::spec_decode_string(b, i) == Some((s, i + spec_esc(s).len() + 1)),
    decreases s.len(),
{
    let whole = spec_esc(s) + seq![QUOTE];
    assert forall|t: int| 0 <= t < whole.len() implies b[i + t] == #[trigger] whole[t] by {
        assert(b.subrange(i, i + spec_esc(s).len() + 1)[t] == whole[t]);
    }
    if s.len() == 0 {
        assert(whole[0] == QUOTE);
        assert(b[i + 0] == whole[0]);
        assert(b[i] == QUOTE);
    } else {
        let c = s[0];
        let e = spec_esc_byte(c);
        let rest = s.skip(1);
        assert(spec_esc(s) == e + spec_esc(rest));
        assert forall|t: int| 0 <= t < e.len() implies b[i + t] == #[trigger] e[t] by {
            assert(whole[t] == (e + spec_esc(rest))[t]);
        }
        let i2 = i + e.len();
        let rwhole = spec_esc(rest) + seq![QUOTE];
        assert forall|t: int| 0 <= t < rwhole.len() implies b[i2 + t] == #[trigger] rwhole[t] by {
            assert(b[i + (e.len() + t)] == whole[e.len() + t]);
            assert(whole[e.len() + t] == (e + spec_esc(rest))[e.len() + t] || whole[e.len() + t]
                == QUOTE);
            assert(whole[e.len() + t] == rwhole[t]);
        }
        assert(b.subrange(i2, i2 + spec_esc(rest).len() + 1) =~= rwhole);
        lemma_decode_of_esc(b, i2, rest);
        assert(s =~= seq![c] + rest);
        if c == QUOTE || c == BACKSLASH || c == 8 || c == 9 || c == 10 || c == 12 || c == 13 {
            assert(b[i] == BACKSLASH && crate::json::spec_unescape(b[i + 1]) == Some(c));
            assert(crate::json::spec_decode_string(b, i) == Some(
                (seq![c] + rest, i2 + spec_esc(rest).len() + 1),
            ));
        } else if c < 32 {
            assert(b[i] == BACKSLASH && b[i + 1] == 117 && b[i + 2] == 48 && b[i + 3] == 48);
            assert(b[i + 4] == spec_hex_digit(c / 16) && b[i + 5] == spec_hex_digit(c % 16));
            assert(crate::json::spec_hex_val(spec_hex_digit(c / 16)) == Some((c / 16) as u8));
            assert(crate::json::spec_hex_val(spec_hex_digit(c % 16)) == Some((c % 16) as u8));
            assert(16 * (c / 16) + (c % 16) == c);
            assert(crate::json::spec_decode_string(b, i) == Some(
                (seq![c] + rest, i2 + spec_esc(rest).len() + 1),
            ));
        } else {
            assert(b[i] == c && c != QUOTE && c != BACKSLASH && c >= 32);
            assert(crate::json::spec_decode_string(b, i) == Some(
                (seq![c] + rest, i2 + spec_esc(rest).len() + 1),
            ));
        }
    }
}

/// A written string value reads back as the content it was written from.
proof fn lemma_read_str_here(b: Seq<u8>, i: int, s: Seq<u8>)
    requires
        0 <= i,
        i + spec_enc_str(s).len() <= b.len(),
        b.subrange(i, i + spec_enc_str(s).len()) == spec_enc_str(s),
    ensures
        spec_read_str(b, i) == Some((s, i + spec_enc_str(s).len())),
{
    let es = spec_enc_str(s);
    assert forall|t: int| 0 <= t < es.len() implies b[i + t] == #[trigger] es[t] by {
        assert(b.subrange(i, i + es.len())[t] == es[t]);
    }
    assert(b[i] == es[0]);
    assert(es[0] == QUOTE) by {
        assert(es == (seq![QUOTE] + spec_esc(s)) + seq![QUOTE]);
    }
    let swhole = spec_esc(s) + seq![QUOTE];
    assert forall|t: int| 0 <= t < swhole.len() implies b[i + 1 + t] == #[trigger] swhole[t] by {
        assert(b[i + (1 + t)] == es[1 + t]);
        assert(es[1 + t] == ((seq![QUOTE] + spec_esc(s)) + seq![QUOTE])[1 + t]);
        assert(es[1 + t] == swhole[t]);
    }
    assert(b.subrange(i + 1, i + 1 + spec_esc(s).len() + 1) =~= swhole);
    lemma_decode_of_esc(b, i + 1, s);
}

/// The bytes of one chunk of a concatenation.
proof fn lemma_slice_of_concat(b: Seq<u8>, p: Seq<u8>, x: Seq<u8>, r: Seq<u8>)
    requires
        b == p + x + r,
    ensures
        b.subrange(p.len() as int, p.len() + x.len() as int) =~= x,
        b.len() == p.len() + x.len() + r.len(),
{
}

/// The punctuation bytes of the envelope's member separators.
proof fn lemma_env_literal_bytes()
    ensures
        ",\"author_id\":".spec_bytes().len() > 0,
        ",\"is_author_bot\":".spec_bytes().len() > 0,
        ",\"content\":".spec_bytes().len() > 0,
        ",\"author_id\":".spec_bytes()[0] == 44,
        ",\"is_author_bot\":".spec_bytes()[0] == 44,
        ",\"content\":".spec_bytes()[0] == 44,
        "[]".spec_bytes().len() == 2,
        "[]".spec_bytes()[0] == 91,
        "[]".spec_bytes()[1] == 93,
        "}".spec_bytes().len() == 1,
{
    broadcast use vstd::string::is_ascii_spec_bytes;

    reveal_strlit(",\"author_id\":");
    reveal_strlit(",\"is_author_bot\":");
    reveal_strlit(",\"content\":");
    reveal_strlit("[]");
    reveal_strlit("}");
    assert(vstd::string::is_ascii("}"));
    assert(vstd::string::is_ascii(",\"author_id\":"));
    assert(vstd::string::is_ascii(",\"is_author_bot\":"));
    assert(vstd::string::is_ascii(",\"content\":"));
    assert(vstd::string::is_ascii("[]"));
}

/// A literal chunk reads back at its own offset.
proof fn lemma_expect_chunk(p: Seq<u8>, lit: Seq<u8>, r: Seq<u8>)
    ensures
        spec_expect((p + lit) + r, p.len() as int, lit) == Some(p.len() + lit.len() as int),
{
    lemma_slice_of_concat((p + lit) + r, p, lit, r);
}

/// A decimal chunk reads back as its number when a separator follows.
proof fn lemma_read_u64_chunk(p: Seq<u8>, n: u64, r: Seq<u8>)
    requires
        r.len() > 0,
        !crate::json::is_digit(r[0]),
    ensures
        spec_read_u64((p + spec_dec_nat(n as nat)) + r, p.len() as int) == Some(
            (n, p.len() + spec_dec_nat(n as nat).len() as int),
        ),
{
    let d = spec_dec_nat(n as nat);
    let b = (p + d) + r;
    lemma_slice_of_concat(b, p, d, r);
    assert(b[p.len() + d.len() as int] == r[0]);
    lemma_read_u64_here(b, p.len() as int, n);
}

/// A boolean chunk reads back as its value.
proof fn lemma_read_bool_chunk(p: Seq<u8>, v: bool, r: Seq<u8>)
    ensures
        spec_read_bool((p + spec_enc_bool(v)) + r, p.len() as int) == Some(
            (v, p.len() + spec_enc_bool(v).len() as int),
        ),
{
    let b = (p + spec_enc_bool(v)) + r;
    lemma_slice_of_concat(b, p, spec_enc_bool(v), r);
    lemma_read_bool_here(b, p.len() as int, v);
}

/// A string chunk reads back as the content it was written from.
proof fn lemma_read_str_chunk(p: Seq<u8>, s: Seq<u8>, r: Seq<u8>)
    ensures
        spec_read_str((p + spec_enc_str(s)) + r, p.len() as int) == Some(
            (s, p.len() + spec_enc_str(s).len() as int),
        ),
{
    let b = (p + spec_enc_str(s)) + r;
    lemma_slice_of_concat(b, p, spec_enc_str(s), r);
    lemma_read_str_here(b, p.len() as int, s);
}

/// The punctuation bytes of an attachment's member separators.
proof fn lemma_att_literal_bytes()
    ensures
        "{\"id\":".spec_bytes().len() > 0,
        "{\"id\":".spec_bytes()[0] == 123,
        ",\"filename\":".spec_bytes().len() > 0,
        ",\"filename\":".spec_bytes()[0] == 44,
        ",\"proxy_url\":".spec_bytes().len() > 0,
        ",\"proxy_url\":".spec_bytes()[0] == 44,
        ",\"url\":".spec_bytes().len() > 0,
        ",\"url\":".spec_bytes()[0] == 44,
        ",\"content_type\":".spec_bytes().len() > 0,
        ",\"content_type\":".spec_bytes()[0] == 44,
{
    broadcast use vstd::string::is_ascii_spec_bytes;

    reveal_strlit("{\"id\":");
    reveal_strlit(",\"filename\":");
    reveal_strlit(",\"proxy_url\":");
    reveal_strlit(",\"url\":");
    reveal_strlit(",\"content_type\":");
    assert(vstd::string::is_ascii("{\"id\":"));
    assert(vstd::string::is_ascii(",\"filename\":"));
    assert(vstd::string::is_ascii(",\"proxy_url\":"));
    assert(vstd::string::is_ascii(",\"url\":"));
    assert(vstd::string::is_ascii(",\"content_type\":"));
}

/// An optional decimal chunk reads back as its value when a separator
/// follows.
proof fn lemma_read_opt_u64_chunk(p: Seq<u8>, o: Option<u64>, r: Seq<u8>)
    requires
        r.len() > 0,
        !crate::json::is_digit(r[0]),
    ensures
        spec_read_opt_u64((p + spec_enc_opt_u64(o)) + r, p.len() as int) == Some(
            (o, p.len() + spec_enc_opt_u64(o).len() as int),
        ),
{
    let b = (p + spec_enc_opt_u64(o)) + r;
    let i = p.len() as int;
    lemma_slice_of_concat(b, p, spec_enc_opt_u64(o), r);
    match o {
        None => {
            lemma_scan_null_here(b, i);
        },
        Some(n) => {
            lemma_dec_nat_shape(n as nat);
            assert(b[i] == spec_dec_nat(n as nat)[0]) by {
                assert(b.subrange(i, i + spec_enc_opt_u64(o).len() as int)[0] == spec_enc_opt_u64(
                    o,
                )[0]);
            }
            assert(crate::json::spec_scan_null(b, i) is None) by {
                if b.subrange(i, i + 4) == lit_null() {
                    assert(b.subrange(i, i + 4)[0] == 110);
                    assert(crate::json::is_digit(110u8) == false);
                }
            }
            lemma_read_u64_chunk(p, n, r);
        },
    }
}

/// An optional string chunk reads back as its value.
proof fn lemma_read_opt_str_chunk(p: Seq<u8>, o: Option<Seq<u8>>, r: Seq<u8>)
    ensures
        spec_read_opt_str((p + spec_enc_opt_str(o)) + r, p.len() as int) == Some(
            (o, p.len() + spec_enc_opt_str(o).len() as int),
        ),
{
    let b = (p + spec_enc_opt_str(o)) + r;
    let i = p.len() as int;
    lemma_slice_of_concat(b, p, spec_enc_opt_str(o), r);
    match o {
        None => {
            lemma_scan_null_here(b, i);
        },
        Some(s) => {
            assert(b[i] == QUOTE) by {
                assert(b.subrange(i, i + spec_enc_opt_str(o).len() as int)[0] == spec_enc_opt_str(
                    o,
                )[0]);
                assert(spec_enc_str(s) == (seq![QUOTE] + spec_esc(s)) + seq![QUOTE]);
            }
            assert(crate::json::spec_scan_null(b, i) is None) by {
                if b.subrange(i, i + 4) == lit_null() {
                    assert(b.subrange(i, i + 4)[0] == 110);
                }
            }
            lemma_read_str_chunk(p, s, r);
        },
    }
}

/// An attachment's first members read back as their values.
#[verifier::rlimit(100)]
#[verifier::spinoff_prover]
proof fn lemma_read_attachment_chunk(p: Seq<u8>, a: MessageAttachmentV, r: Seq<u8>)
    requires
        r.len() > 0,
    ensures
        spec_read_attachment((p + spec_enc_attachment(a)) + r, p.len() as int) == Some(
            (a, p.len() + spec_enc_attachment(a).len() as int),
        ),
{
    lemma_att_literal_bytes();
    lemma_env_literal_bytes();
    let b = (p + spec_enc_attachment(a)) + r;
    let l1 = "{\"id\":".spec_bytes();
    let d2 = spec_dec_nat(a.id as nat);
    let l3 = ",\"filename\":".spec_bytes();
    let d4 = spec_enc_str(a.filename);
    let l5 = ",\"height\":".spec_bytes();
    let d6 = spec_enc_opt_u64(a.height);
    let l7 = ",\"proxy_url\":".spec_bytes();
    let d8 = spec_enc_str(a.proxy_url);
    let l9 = ",\"size\":".spec_bytes();
    let d10 = spec_dec_nat(a.size as nat);
    let rest = ",\"url\":".spec_bytes() + spec_enc_str(a.url) + ",\"width\":".spec_bytes()
        + spec_enc_opt_u64(a.width) + ",\"content_type\":".spec_bytes() + spec_enc_opt_str(
        a.content_type,
    ) + ",\"ephemeral\":".spec_bytes() + spec_enc_bool(a.ephemeral) + "}".spec_bytes();
    let s1 = p + l1;
    let s2 = s1 + d2;
    let s3 = s2 + l3;
    let s4 = s3 + d4;
    let s5 = s4 + l5;
    let s6 = s5 + d6;
    let s7 = s6 + l7;
    let s8 = s7 + d8;
    let s9 = s8 + l9;
    let s10 = s9 + d10;
    // fold the prefix into the attachment's own left-nested concatenation
    assert(spec_enc_attachment(a) == (((((((((l1 + d2) + l3) + d4) + l5) + d6) + l7) + d8) + l9)
        + d10) + (rest.subrange(0, rest.len() as int))) by {
        assert(rest.subrange(0, rest.len() as int) =~= rest);
    }
    vstd::seq_lib::lemma_concat_associative(p, (((((((((l1 + d2) + l3) + d4) + l5) + d6) + l7)
        + d8) + l9) + d10), rest);
    assert(p + spec_enc_attachment(a) == (p + ((((((((((l1 + d2) + l3) + d4) + l5) + d6) + l7)
        + d8) + l9) + d10))) + rest) by {
        assert(rest.subrange(0, rest.len() as int) =~= rest);
    }
    vstd::seq_lib::lemma_concat_associative(p, ((((((((l1 + d2) + l3) + d4) + l5) + d6) + l7) + d8)
        + l9), d10);
    vstd::seq_lib::lemma_concat_associative(p, (((((((l1 + d2) + l3) + d4) + l5) + d6) + l7) + d8),
        l9);
    vstd::seq_lib::lemma_concat_associative(p, ((((((l1 + d2) + l3) + d4) + l5) + d6) + l7), d8);
    vstd::seq_lib::lemma_concat_associative(p, (((((l1 + d2) + l3) + d4) + l5) + d6), l7);
    vstd::seq_lib::lemma_concat_associative(p, ((((l1 + d2) + l3) + d4) + l5), d6);
    vstd::seq_lib::lemma_concat_associative(p, (((l1 + d2) + l3) + d4), l5);
    vstd::seq_lib::lemma_concat_associative(p, ((l1 + d2) + l3), d4);
    vstd::seq_lib::lemma_concat_associative(p, (l1 + d2), l3);
    vstd::seq_lib::lemma_concat_associative(p, l1, d2);
    assert(p + spec_enc_attachment(a) == s10 + rest);
    vstd::seq_lib::lemma_concat_associative(s10, rest, r);
    assert(b == s10 + (rest + r));
    // right-nested suffixes for each member in turn
    let w10 = rest + r;
    let w9 = d10 + w10;
    vstd::seq_lib::lemma_concat_associative(s9, d10, w10);
    let w8 = l9 + w9;
    vstd::seq_lib::lemma_concat_associative(s8, l9, w9);
    let w7 = d8 + w8;
    vstd::seq_lib::lemma_concat_associative(s7, d8, w8);
    let w6 = l7 + w7;
    vstd::seq_lib::lemma_concat_associative(s6, l7, w7);
    let w5 = d6 + w6;
    vstd::seq_lib::lemma_concat_associative(s5, d6, w6);
    let w4 = l5 + w5;
    vstd::seq_lib::lemma_concat_associative(s4, l5, w5);
    let w3 = d4 + w4;
    vstd::seq_lib::lemma_concat_associative(s3, d4, w4);
    let w2 = l3 + w3;
    vstd::seq_lib::lemma_concat_associative(s2, l3, w3);
    let w1 = d2 + w2;
    vstd::seq_lib::lemma_concat_associative(s1, d2, w2);
    // read the members in order
    lemma_expect_chunk(p, l1, w1);
    assert(b == (p + l1) + w1);
    assert(w2[0] == l3[0]) by {
        assert((l3 + w3)[0] == l3[0]);
    }
    lemma_read_u64_chunk(s1, a.id, w2);
    lemma_expect_chunk(s2, l3, w3);
    lemma_read_str_chunk(s3, a.filename, w4);
    lemma_expect_chunk(s4, l5, w5);
    assert(w6[0] == l7[0]) by {
        assert((l7 + w7)[0] == l7[0]);
    }
    lemma_read_opt_u64_chunk(s5, a.height, w6);
    lemma_expect_chunk(s6, l7, w7);
    lemma_read_str_chunk(s7, a.proxy_url, w8);
    lemma_expect_chunk(s8, l9, w9);
    assert(w10[0] == ",\"url\":".spec_bytes()[0]) by {
        assert(((",\"url\":".spec_bytes() + (spec_enc_str(a.url) + ",\"width\":".spec_bytes()
            + spec_enc_opt_u64(a.width) + ",\"content_type\":".spec_bytes() + spec_enc_opt_str(
            a.content_type,
        ) + ",\"ephemeral\":".spec_bytes() + spec_enc_bool(a.ephemeral) + "}".spec_bytes())) + r)[0]
            == ",\"url\":".spec_bytes()[0]);
        assert(w10[0] == rest[0]);
        assert(rest[0] == ",\"url\":".spec_bytes()[0]);
    }
    lemma_read_u64_chunk(s9, a.size, w10);
    lemma_read_attachment_rest_chunk(s10, a, r);
    assert(s10 + rest == p + spec_enc_attachment(a));
}

/// An attachment's later members read back as their values.
#[verifier::rlimit(100)]
#[verifier::spinoff_prover]
proof fn lemma_read_attachment_rest_chunk(p: Seq<u8>, a: MessageAttachmentV, r: Seq<u8>)
    requires
        r.len() > 0,
    ensures
        spec_read_attachment_rest(
            (p + spec_att_rest_bytes(a)) + r,
            p.len() as int,
            a.id,
            a.filename,
            a.height,
            a.proxy_url,
            a.size,
        ) == Some((a, p.len() + spec_att_rest_bytes(a).len() as int)),
{
    lemma_att_literal_bytes();
    lemma_env_literal_bytes();
    let l1 = ",\"url\":".spec_bytes();
    let d2 = spec_enc_str(a.url);
    let l3 = ",\"width\":".spec_bytes();
    let d4 = spec_enc_opt_u64(a.width);
    let l5 = ",\"content_type\":".spec_bytes();
    let d6 = spec_enc_opt_str(a.content_type);
    let l7 = ",\"ephemeral\":".spec_bytes();
    let d8 = spec_enc_bool(a.ephemeral);
    let l9 = "}".spec_bytes();
    let b = (p + spec_att_rest_bytes(a)) + r;
    let s1 = p + l1;
    let s2 = s1 + d2;
    let s3 = s2 + l3;
    let s4 = s3 + d4;
    let s5 = s4 + l5;
    let s6 = s5 + d6;
    let s7 = s6 + l7;
    let s8 = s7 + d8;
    let s9 = s8 + l9;
    vstd::seq_lib::lemma_concat_associative(p, (((((((l1 + d2) + l3) + d4) + l5) + d6) + l7) + d8),
        l9);
    vstd::seq_lib::lemma_concat_associative(p, ((((((l1 + d2) + l3) + d4) + l5) + d6) + l7), d8);
    vstd::seq_lib::lemma_concat_associative(p, (((((l1 + d2) + l3) + d4) + l5) + d6), l7);
    vstd::seq_lib::lemma_concat_associative(p, ((((l1 + d2) + l3) + d4) + l5), d6);
    vstd::seq_lib::lemma_concat_associative(p, (((l1 + d2) + l3) + d4), l5);
    vstd::seq_lib::lemma_concat_associative(p, ((l1 + d2) + l3), d4);
    vstd::seq_lib::lemma_concat_associative(p, (l1 + d2), l3);
    vstd::seq_lib::lemma_concat_associative(p, l1, d2);
    assert(p + spec_att_rest_bytes(a) == s9);
    let w9 = r;
    let w8 = l9 + w9;
    vstd::seq_lib::lemma_concat_associative(s8, l9, w9);
    let w7 = d8 + w8;
    vstd::seq_lib::lemma_concat_associative(s7, d8, w8);
    let w6 = l7 + w7;
    vstd::seq_lib::lemma_concat_associative(s6, l7, w7);
    let w5 = d6 + w6;
    vstd::seq_lib::lemma_concat_associative(s5, d6, w6);
    let w4 = l5 + w5;
    vstd::seq_lib::lemma_concat_associative(s4, l5, w5);
    let w3 = d4 + w4;
    vstd::seq_lib::lemma_concat_associative(s3, d4, w4);
    let w2 = l3 + w3;
    vstd::seq_lib::lemma_concat_associative(s2, l3, w3);
    let w1 = d2 + w2;
    vstd::seq_lib::lemma_concat_associative(s1, d2, w2);
    assert(b == s9 + w9);
    lemma_expect_chunk(p, l1, w1);
    assert(b == (p + l1) + w1);
    lemma_read_str_chunk(s1, a.url, w2);
    lemma_expect_chunk(s2, l3, w3);
    assert(w4[0] == l5[0]) by {
        assert((l5 + w5)[0] == l5[0]);
    }
    lemma_read_opt_u64_chunk(s3, a.width, w4);
    lemma_expect_chunk(s4, l5, w5);
    lemma_read_opt_str_chunk(s5, a.content_type, w6);
    lemma_expect_chunk(s6, l7, w7);
    lemma_read_bool_chunk(s7, a.ephemeral, w8);
    lemma_expect_chunk(s8, l9, w9);
}

/// The bytes of an attachment object from its `url` member on.
pub open spec fn spec_att_rest_bytes(a: MessageAttachmentV) -> Seq<u8> {
    ",\"url\":".spec_bytes() + spec_enc_str(a.url) + ",\"width\":".spec_bytes()
        + spec_enc_opt_u64(a.width) + ",\"content_type\":".spec_bytes() + spec_enc_opt_str(
        a.content_type,
    ) + ",\"ephemeral\":".spec_bytes() + spec_enc_bool(a.ephemeral) + "}".spec_bytes()
}

/// An encoded attachment is never empty and opens with its brace.
proof fn lemma_enc_attachment_head(a: MessageAttachmentV)
    ensures
        spec_enc_attachment(a).len() > 0,
        spec_enc_attachment(a)[0] == 123,
{
    lemma_att_literal_bytes();
    let l1 = "{\"id\":".spec_bytes();
    let p2 = l1 + spec_dec_nat(a.id as nat);
    let p3 = p2 + ",\"filename\":".spec_bytes();
    let p4 = p3 + spec_enc_str(a.filename);
    let p5 = p4 + ",\"height\":".spec_bytes();
    let p6 = p5 + spec_enc_opt_u64(a.height);
    let p7 = p6 + ",\"proxy_url\":".spec_bytes();
    let p8 = p7 + spec_enc_str(a.proxy_url);
    let p9 = p8 + ",\"size\":".spec_bytes();
    let p10 = p9 + spec_dec_nat(a.size as nat);
    assert(spec_enc_attachment(a) == p10 + spec_att_rest_bytes(a));
    assert(p2[0] == l1[0]);
    assert(p3[0] == p2[0]);
    assert(p4[0] == p3[0]);
    assert(p5[0] == p4[0]);
    assert(p6[0] == p5[0]);
    assert(p7[0] == p6[0]);
    assert(p8[0] == p7[0]);
    assert(p9[0] == p8[0]);
    assert(p10[0] == p9[0]);
    assert(spec_enc_attachment(a)[0] == p10[0]);
}

/// The attachments after the first read back as the row they were written
/// from, up to the closing bracket.
#[verifier::rlimit(100)]
#[verifier::spinoff_prover]
proof fn lemma_read_att_more_list(p: Seq<u8>, l: Seq<MessageAttachmentV>, r: Seq<u8>)
    ensures
        spec_read_att_more(
            (p + (spec_enc_att_tail(l) + seq![crate::json::RBRACKET])) + r,
            p.len() as int,
        ) == Some((l, p.len() + spec_enc_att_tail(l).len() + 1 as int)),
    decreases l.len(),
{
    let rb = seq![crate::json::RBRACKET];
    let x = spec_enc_att_tail(l) + rb;
    let b = (p + x) + r;
    lemma_slice_of_concat(b, p, x, r);
    let i = p.len() as int;
    assert(b[i] == x[0]) by {
        assert(b.subrange(i, i + x.len() as int)[0] == x[0]);
    }
    if l.len() == 0 {
        assert(x =~= rb);
        assert(l =~= Seq::<MessageAttachmentV>::empty());
    } else {
        let c = seq![crate::json::COMMA];
        let a0 = l[0];
        let e0 = spec_enc_attachment(a0);
        let tl = spec_enc_att_tail(l.skip(1));
        assert(spec_enc_att_tail(l) == (c + e0) + tl);
        assert(x[0] == crate::json::COMMA) by {
            assert((((c + e0) + tl) + rb)[0] == ((c + e0) + tl)[0]);
            assert(((c + e0) + tl)[0] == (c + e0)[0]);
            assert((c + e0)[0] == c[0]);
        }
        let xx = (p + c) + e0;
        vstd::seq_lib::lemma_concat_associative(p, (c + e0) + tl, rb);
        vstd::seq_lib::lemma_concat_associative(p, c + e0, tl);
        vstd::seq_lib::lemma_concat_associative(p, c, e0);
        assert(b == (((xx + tl) + rb)) + r);
        vstd::seq_lib::lemma_concat_associative(xx + tl, rb, r);
        vstd::seq_lib::lemma_concat_associative(xx, tl, rb + r);
        assert(b == xx + (tl + (rb + r)));
        assert((rb + r).len() > 0);
        lemma_read_attachment_chunk(p + c, a0, tl + (rb + r));
        let j = i + 1 + e0.len() as int;
        assert(spec_read_attachment(b, i + 1) == Some((a0, j)));
        vstd::seq_lib::lemma_concat_associative(xx, tl, rb);
        assert(b == (xx + (tl + rb)) + r);
        lemma_read_att_more_list(xx, l.skip(1), r);
        assert(spec_read_att_more(b, j) == Some(
            (l.skip(1), j + spec_enc_att_tail(l.skip(1)).len() + 1 as int),
        )) by {
            assert(xx.len() as int == j);
        }
        assert(i < j <= b.len());
        assert(seq![a0] + l.skip(1) =~= l);
    }
}

/// A written attachments array reads back as the row it was written from.
#[verifier::rlimit(100)]
#[verifier::spinoff_prover]
proof fn lemma_read_attachments_list(p: Seq<u8>, l: Seq<MessageAttachmentV>, r: Seq<u8>)
    requires
        r.len() > 0,
    ensures
        spec_read_attachments((p + spec_enc_attachments(l)) + r, p.len() as int) == Some(
            (l, p.len() + spec_enc_attachments(l).len() as int),
        ),
{
    lemma_att_literal_bytes();
    lemma_env_literal_bytes();
    let x = spec_enc_attachments(l);
    let b = (p + x) + r;
    lemma_slice_of_concat(b, p, x, r);
    let i = p.len() as int;
    if l.len() == 0 {
        assert(b.subrange(i, i + 2)[0] == x[0]);
        assert(b.subrange(i, i + 2)[1] == x[1]);
        assert(b[i] == 91 && b[i + 1] == 93);
        assert(l =~= Seq::<MessageAttachmentV>::empty());
    } else {
        let lb = seq![crate::json::LBRACKET];
        let rb = seq![crate::json::RBRACKET];
        let a0 = l[0];
        let e0 = spec_enc_attachment(a0);
        let tl = spec_enc_att_tail(l.skip(1));
        assert(x == ((lb + e0) + tl) + rb);
        assert(b[i] == x[0]) by {
            assert(b.subrange(i, i + x.len() as int)[0] == x[0]);
        }
        assert(x[0] == crate::json::LBRACKET) by {
            assert((((lb + e0) + tl) + rb)[0] == lb[0]);
        }
        lemma_enc_attachment_head(a0);
        assert(x[1] == e0[0]) by {
            assert((((lb + e0) + tl) + rb)[1] == ((lb + e0) + tl)[1]);
            assert(((lb + e0) + tl)[1] == (lb + e0)[1]);
            assert((lb + e0)[1] == e0[0]);
        }
        assert(b[i + 1] == x[1]) by {
            assert(b.subrange(i, i + x.len() as int)[1] == x[1]);
        }
        assert(b[i + 1] != crate::json::RBRACKET);
        // regroup for the first attachment, then the remainder
        vstd::seq_lib::lemma_concat_associative(lb + e0, tl, rb);
        assert(x == (lb + e0) + (tl + rb));
        vstd::seq_lib::lemma_concat_associative(lb, e0, tl + rb);
        assert(x == lb + (e0 + (tl + rb)));
        vstd::seq_lib::lemma_concat_associative(p, lb, e0 + (tl + rb));
        assert(p + x == (p + lb) + (e0 + (tl + rb)));
        vstd::seq_lib::lemma_concat_associative(p + lb, e0, tl + rb);
        assert(p + x == ((p + lb) + e0) + (tl + rb));
        vstd::seq_lib::lemma_concat_associative((p + lb) + e0, tl + rb, r);
        assert(b == (((p + lb) + e0) + (tl + rb)) + r);
        vstd::seq_lib::lemma_concat_associative(tl, rb, r);
        assert(b == ((p + lb) + e0) + (tl + (rb + r))) by {
            vstd::seq_lib::lemma_concat_associative((p + lb) + e0, tl, rb + r);
            assert((tl + rb) + r == tl + (rb + r));
        }
        assert((rb + r).len() > 0);
        lemma_read_attachment_chunk(p + lb, a0, tl + (rb + r));
        let j = (p + lb).len() + e0.len() as int;
        assert(spec_read_attachment(b, i + 1) == Some((a0, j)));
        lemma_read_att_more_list((p + lb) + e0, l.skip(1), r);
        assert(i < j <= b.len());
        assert(seq![a0] + l.skip(1) =~= l);
    }
}

/// Round trip of the canonical envelope: reading back what
/// `encode_outbound_message` wrote yields the message it was written from,
/// field for field, attachments included.
#[verifier::rlimit(100)]
#[verifier::spinoff_prover]
pub proof fn lemma_envelope_round_trip(m: OutboundChatMessageV)
    ensures
        spec_dec_msg(spec_enc_msg(m)) == Some(m),
{
    lemma_env_literal_bytes();
    let b = spec_enc_msg(m);
    let c1 = "{\"message_id\":".spec_bytes();
    let c2 = spec_dec_nat(m.message_id as nat);
    let c3 = ",\"author_id\":".spec_bytes();
    let c4 = spec_dec_nat(m.author_id as nat);
    let c5 = ",\"is_author_bot\":".spec_bytes();
    let c6 = spec_enc_bool(m.is_author_bot);
    let c7 = ",\"channel_id\":".spec_bytes();
    let c8 = spec_dec_nat(m.channel_id as nat);
    let c9 = ",\"content\":".spec_bytes();
    let c10 = spec_enc_str(m.content);
    let c11 = ",\"attachments\":".spec_bytes();
    let c12 = spec_enc_attachments(m.attachments);
    let c13 = "}".spec_bytes();
    let s1 = c1;
    let s2 = s1 + c2;
    let s3 = s2 + c3;
    let s4 = s3 + c4;
    let s5 = s4 + c5;
    let s6 = s5 + c6;
    let s7 = s6 + c7;
    let s8 = s7 + c8;
    let s9 = s8 + c9;
    let s10 = s9 + c10;
    let s11 = s10 + c11;
    let s12 = s11 + c12;
    assert(b == s12 + c13);
    let t13 = c13;
    let t12 = c12 + t13;
    vstd::seq_lib::lemma_concat_associative(s11, c12, t13);
    let t11 = c11 + t12;
    vstd::seq_lib::lemma_concat_associative(s10, c11, t12);
    let t10 = c10 + t11;
    vstd::seq_lib::lemma_concat_associative(s9, c10, t11);
    let t9 = c9 + t10;
    vstd::seq_lib::lemma_concat_associative(s8, c9, t10);
    let t8 = c8 + t9;
    vstd::seq_lib::lemma_concat_associative(s7, c8, t9);
    let t7 = c7 + t8;
    vstd::seq_lib::lemma_concat_associative(s6, c7, t8);
    let t6 = c6 + t7;
    vstd::seq_lib::lemma_concat_associative(s5, c6, t7);
    let t5 = c5 + t6;
    vstd::seq_lib::lemma_concat_associative(s4, c5, t6);
    let t4 = c4 + t5;
    vstd::seq_lib::lemma_concat_associative(s3, c4, t5);
    let t3 = c3 + t4;
    vstd::seq_lib::lemma_concat_associative(s2, c3, t4);
    let t2 = c2 + t3;
    vstd::seq_lib::lemma_concat_associative(s1, c2, t3);
    // read the members in order, each at the offset the previous ones leave
    assert(b == (s1 + c2) + t3);
    lemma_expect_chunk(Seq::empty(), c1, t2);
    assert(Seq::<u8>::empty() + c1 == s1) by {
        assert(Seq::<u8>::empty() + c1 =~= c1);
    }
    assert(b == (Seq::<u8>::empty() + c1) + t2);
    assert(t3[0] == c3[0]) by {
        assert((c3 + t4)[0] == c3[0]);
    }
    lemma_read_u64_chunk(s1, m.message_id, t3);
    lemma_expect_chunk(s2, c3, t4);
    assert(t5[0] == c5[0]) by {
        assert((c5 + t6)[0] == c5[0]);
    }
    lemma_read_u64_chunk(s3, m.author_id, t5);
    lemma_expect_chunk(s4, c5, t6);
    lemma_read_bool_chunk(s5, m.is_author_bot, t7);
    lemma_expect_chunk(s6, c7, t8);
    assert(t9[0] == c9[0]) by {
        assert((c9 + t10)[0] == c9[0]);
    }
    lemma_read_u64_chunk(s7, m.channel_id, t9);
    lemma_expect_chunk(s8, c9, t10);
    lemma_read_str_chunk(s9, m.content, t11);
    lemma_expect_chunk(s10, c11, t12);
    assert(t13.len() > 0) by {
        lemma_env_literal_bytes();
    }
    lemma_read_attachments_list(s11, m.attachments, t13);
    assert((s12 + c13) + Seq::<u8>::empty() =~= s12 + c13);
    lemma_expect_chunk(s12, c13, Seq::empty());
    assert(spec_dec_msg(b) == Some(m));
}

/// The lowercase form of an ASCII letter; any other byte is unchanged.
pub open spec fn spec_ascii_lower(b: u8) -> u8 {
    if 65 <= b <= 90 {
        (b + 32) as u8
    } else {
        b
    }
}

/// Whether a chat message's content reads `ping`, ASCII case ignored.
pub open spec fn spec_is_ping(content: Seq<u8>) -> bool {
    content.map_values(|b: u8| spec_ascii_lower(b)) == "ping".spec_bytes()
}

/// Whether the bridge answers this chat message with `Pong!`.
pub fn is_ping(content: &[u8]) -> (r: bool)
    ensures
        r == spec_is_ping(content@),
{
    let ghost lowered = content@.map_values(|b: u8| spec_ascii_lower(b));
    proof {
        reveal_strlit("ping");
        vstd::string::is_ascii_spec_bytes("ping");
        assert("ping".spec_bytes().len() == 4);
    }
    if content.len() != 4 {
        proof {
            assert(lowered.len() == content@.len());
        }
        return false;
    }
    let mut i: usize = 0;
    let expect: &[u8] = "ping".as_bytes();
    while i < 4
        invariant
            0 <= i <= 4,
            content@.len() == 4,
            lowered == content@.map_values(|b: u8| spec_ascii_lower(b)),
            expect@ == "ping".spec_bytes(),
            expect@.len() == 4,
            forall|k: int| 0 <= k < i ==> lowered[k] == expect@[k],
        decreases 4 - i,
    {
        let b = content[i];
        let low = if 65 <= b && b <= 90 {
            b + 32
        } else {
            b
        };
        proof {
            assert(lowered[i as int] == spec_ascii_lower(content@[i as int]));
        }
        if low != expect[i] {
            proof {
                assert(lowered[i as int] != expect@[i as int]);
                assert(lowered != "ping".spec_bytes());
            }
            return false;
        }
        i += 1;
    }
    proof {
        assert(lowered =~= "ping".spec_bytes());
    }
    true
}

} // verus!
