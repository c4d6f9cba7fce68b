//! What holds of address parsing and formatting on every input.

use crate::lemmas::{
    lemma_numeral_value, lemma_tokens_are_tokens, lemma_tokens_concat, lemma_tokens_nonempty_iff,
    lemma_tokens_of_token, lemma_tokens_one_piece, lemma_trim_padding,
};
use crate::netutil::{address_text, host_port, AddrView};
use crate::strutil::{has_content, is_blank, is_digit, is_token, numeral, token_of, tokens};
use vstd::prelude::*;

verus! {

/// A text stands for a host and a port exactly where it holds a character that is
/// neither `:` nor white space: every such text parses, whatever the default port.
pub proof fn lemma_host_port_defined(s: Seq<char>, default_port: u16)
    ensures
        host_port(s, default_port) is Some <==> has_content(s, ':'),
{
    lemma_tokens_nonempty_iff(s, ':');
}

/// A parsed host is a token: not empty, without white space at either end, and
/// without `:`. So a parsed host and port make a well-formed address.
pub proof fn lemma_host_port_wf(s: Seq<char>, default_port: u16)
    ensures
        host_port(s, default_port) matches Some((host, port)) ==> is_token(host, ':') && (AddrView {
            host,
            port: Some(port),
        }).wf(),
{
    lemma_tokens_are_tokens(s, ':');
}

/// The numeral of a port is a token of a clean split on `:`.
proof fn lemma_numeral_is_token(port: u16)
    ensures
        is_token(numeral(port as nat), ':'),
{
    let digits = numeral(port as nat);
    lemma_numeral_value(port as nat);
    assert(is_digit(digits.first()));
    assert(is_digit(digits.last()));
    assert forall|i: int| 0 <= i < digits.len() implies digits[i] != ':' by {
        assert(is_digit(digits[i]));
    }
}

/// The text of a host that is a token, with a port, parses back to that host and
/// that port, whatever the default port.
pub proof fn lemma_text_parses_back(host: Seq<char>, port: u16, default_port: u16)
    requires
        is_token(host, ':'),
    ensures
        host_port(address_text(host, Some(port)), default_port) == Some((host, port)),
{
    let digits = numeral(port as nat);
    lemma_numeral_is_token(port);
    lemma_numeral_value(port as nat);
    lemma_tokens_concat(host, digits, ':');
    lemma_tokens_of_token(host, ':');
    lemma_tokens_one_piece(host, ':');
    lemma_tokens_of_token(digits, ':');
    assert(tokens(address_text(host, Some(port)), ':') =~= seq![host, digits]);
}

/// Round trip: where a text parses to a host and a port, the text of that address
/// parses, with the same default port, to the same host and port.
pub proof fn lemma_parse_format_parse(s: Seq<char>, default_port: u16)
    requires
        host_port(s, default_port) is Some,
    ensures
        ({
            let (host, port) = host_port(s, default_port)->0;
            host_port(address_text(host, Some(port)), default_port) == host_port(s, default_port)
        }),
{
    let (host, port) = host_port(s, default_port)->0;
    lemma_host_port_wf(s, default_port);
    lemma_text_parses_back(host, port, default_port);
}

/// White space around the host and around the port does not count: a text with
/// such padding parses as the text without it.
pub proof fn lemma_padding_ignored(
    host: Seq<char>,
    port: Seq<char>,
    w1: Seq<char>,
    w2: Seq<char>,
    w3: Seq<char>,
    w4: Seq<char>,
    default_port: u16,
)
    requires
        is_blank(w1),
        is_blank(w2),
        is_blank(w3),
        is_blank(w4),
        forall|i: int| 0 <= i < host.len() ==> host[i] != ':',
        forall|i: int| 0 <= i < port.len() ==> port[i] != ':',
    ensures
        host_port(w1 + host + w2 + seq![':'] + w3 + port + w4, default_port) == host_port(
            host + seq![':'] + port,
            default_port,
        ),
        host_port(w1 + host + w2, default_port) == host_port(host, default_port),
{
    let left = w1 + host + w2;
    let right = w3 + port + w4;
    lemma_trim_padding(w1, host, w2);
    lemma_trim_padding(w3, port, w4);
    assert(token_of(left) == token_of(host));
    assert(token_of(right) == token_of(port));
    lemma_tokens_concat(left, right, ':');
    lemma_tokens_one_piece(right, ':');
    lemma_tokens_concat(host, port, ':');
    lemma_tokens_one_piece(port, ':');
    lemma_tokens_one_piece(left, ':');
    lemma_tokens_one_piece(host, ':');
    assert(left + seq![':'] + right =~= w1 + host + w2 + seq![':'] + w3 + port + w4);
}

} // verus!
