//! The URLs under which the relay is reached.

use crate::text::{
    has_suffix, law_trimming_a_character_takes_it_only, lemma_first_index_is, opt_text, repeated,
    trim_end_char, trimmed_end_char, without_prefix,
};
use vstd::prelude::*;
use vstd::string::*;
use vstd::utf8::*;

verus! {

/// Whether a byte stands for itself in an encoded text: letters, digits, `-`, `.`,
/// `_` and `~`.
pub open spec fn is_unreserved(b: u8) -> bool {
    ||| 0x30 <= b <= 0x39
    ||| 0x41 <= b <= 0x5a
    ||| 0x61 <= b <= 0x7a
    ||| b == 0x2d
    ||| b == 0x2e
    ||| b == 0x5f
    ||| b == 0x7e
}

/// One upper-case hexadecimal digit.
pub open spec fn upper_digit(d: int) -> char {
    if d < 10 {
        (0x30 + d) as char
    } else {
        (0x41 + (d - 10)) as char
    }
}

/// One byte in an encoded text.
pub open spec fn percent_byte(b: u8) -> Seq<char> {
    if is_unreserved(b) {
        seq![b as char]
    } else {
        seq!['%', upper_digit(b as int / 16), upper_digit(b as int % 16)]
    }
}

/// Bytes in an encoded text.
pub open spec fn percent_bytes(bytes: Seq<u8>) -> Seq<char>
    decreases bytes.len(),
{
    if bytes.len() == 0 {
        Seq::empty()
    } else {
        percent_byte(bytes[0]) + percent_bytes(bytes.skip(1))
    }
}

/// A text with every byte of its UTF-8 form encoded that is not unreserved.
pub open spec fn percent_encoded(s: Seq<char>) -> Seq<char> {
    percent_bytes(encode_utf8(s))
}

/// Whether the encoded form of a text is sure to fit in memory: each byte turns
/// into at most three, in a buffer that doubles when it grows.
pub open spec fn is_encodable(s: Seq<char>) -> bool {
    encode_utf8(s).len() * 6 <= isize::MAX
}

/// Calls `urlencoding::encode`, which keeps the letters, the digits, `-`, `.`, `_`
/// and `~` of a text and writes every other byte of its UTF-8 form as `%` and two
/// upper-case hexadecimal digits.
#[verifier::external_body]
fn url_encoded(s: &str) -> (r: String)
    requires
        is_encodable(s@),
    ensures
        r@ == percent_encoded(s@),
{
    urlencoding::encode(s).into_owned()
}

/// A relay's base URL with the scheme of a web socket.
pub open spec fn ws_scheme(base: Seq<char>) -> Seq<char> {
    if "http://"@.is_prefix_of(base) {
        "ws://"@ + base.skip(7)
    } else if "https://"@.is_prefix_of(base) {
        "wss://"@ + base.skip(8)
    } else {
        base
    }
}

/// The URL of a relay's web socket, without its query.
pub open spec fn ws_base(relay_base: Seq<char>) -> Seq<char> {
    let base = ws_scheme(trim_end_char(relay_base, '/'));
    if "/ws"@.is_suffix_of(base) {
        base
    } else {
        base + "/ws"@
    }
}

/// The part of the query that names a connection.
pub open spec fn connection_query(connection_id: Option<Seq<char>>) -> Seq<char> {
    match connection_id {
        Some(id) => "&connectionId="@ + percent_encoded(id),
        None => Seq::empty(),
    }
}

/// The URL of a relay's web socket.
pub open spec fn ws_url(
    relay_base: Seq<char>,
    server_id: Seq<char>,
    role: Seq<char>,
    connection_id: Option<Seq<char>>,
) -> Seq<char> {
    ws_base(relay_base) + "?serverId="@ + percent_encoded(server_id) + "&role="@ + role + "&v=2"@
        + connection_query(connection_id)
}

/// Builds the URL of a relay's web socket.
pub fn build_ws_url(
    relay_base: &str,
    server_id: &str,
    role: &str,
    connection_id: Option<&str>,
) -> (r: String)
    requires
        is_encodable(server_id@),
        connection_id matches Some(id) ==> is_encodable(id@),
    ensures
        r@ == ws_url(relay_base@, server_id@, role@, opt_text(connection_id)),
{
    proof {
        reveal_strlit("http://");
        reveal_strlit("https://");
    }
    let trimmed = trimmed_end_char(relay_base, '/');
    let mut url: String;
    if let Some(rest) = without_prefix(trimmed, "http://") {
        url = "ws://".to_owned();
        url.append(rest);
    } else if let Some(rest) = without_prefix(trimmed, "https://") {
        url = "wss://".to_owned();
        url.append(rest);
    } else {
        url = trimmed.to_owned();
    }
    if !has_suffix(url.as_str(), "/ws") {
        url.append("/ws");
    }
    url.append("?serverId=");
    url.append(url_encoded(server_id).as_str());
    url.append("&role=");
    url.append(role);
    url.append("&v=2");
    let ghost without_id = url@;
    if let Some(id) = connection_id {
        url.append("&connectionId=");
        url.append(url_encoded(id).as_str());
    }
    assert(url@ =~= without_id + connection_query(opt_text(connection_id)));
    url
}

/// Builds the URL of a node's control channel.
pub fn control_url(relay_base: &str, server_id: &str) -> (r: String)
    requires
        is_encodable(server_id@),
    ensures
        r@ == ws_url(relay_base@, server_id@, "server"@, None),
{
    build_ws_url(relay_base, server_id, "server", None)
}

/// Builds the URL of the data channel over which a node serves an access node.
pub fn server_data_url(relay_base: &str, server_id: &str, connection_id: &str) -> (r: String)
    requires
        is_encodable(server_id@),
        is_encodable(connection_id@),
    ensures
        r@ == ws_url(relay_base@, server_id@, "server"@, Some(connection_id@)),
{
    build_ws_url(relay_base, server_id, "server", Some(connection_id))
}

/// Builds the URL of the data channel over which an access node reaches a node.
pub fn client_data_url(relay_base: &str, server_id: &str, connection_id: Option<&str>) -> (r: String)
    requires
        is_encodable(server_id@),
        connection_id matches Some(id) ==> is_encodable(id@),
    ensures
        r@ == ws_url(relay_base@, server_id@, "client"@, opt_text(connection_id)),
{
    build_ws_url(relay_base, server_id, "client", connection_id)
}

/// Whether a character may stand in an encoded text.
pub open spec fn may_be_encoded(c: char) -> bool {
    c == '%' || exists|b: u8| is_unreserved(b) && c == #[trigger] (b as char)
}

proof fn lemma_percent_byte(b: u8)
    ensures
        forall|i: int| 0 <= i < percent_byte(b).len() ==> may_be_encoded(#[trigger] percent_byte(b)[i]),
        (percent_byte(b)[0] == '%') == !is_unreserved(b),
{
    if is_unreserved(b) {
        assert(percent_byte(b)[0] == b as char);
    } else {
        let high = b as int / 16;
        let low = b as int % 16;
        let h: u8 = if high < 10 { (0x30 + high) as u8 } else { (0x41 + (high - 10)) as u8 };
        let l: u8 = if low < 10 { (0x30 + low) as u8 } else { (0x41 + (low - 10)) as u8 };
        assert(is_unreserved(h) && upper_digit(high) == h as char);
        assert(is_unreserved(l) && upper_digit(low) == l as char);
    }
}

/// What an encoded text holds is unreserved or a percent sign: nothing in it ends
/// a value of the query or starts another.
pub proof fn law_encoded_texts_are_plain(s: Seq<char>)
    ensures
        forall|i: int|
            0 <= i < percent_encoded(s).len() ==> may_be_encoded(#[trigger] percent_encoded(s)[i]),
        !percent_encoded(s).contains('&'),
        !percent_encoded(s).contains('='),
        !percent_encoded(s).contains('?'),
        !percent_encoded(s).contains('#'),
{
    lemma_percent_bytes(encode_utf8(s));
}

proof fn lemma_percent_bytes(bytes: Seq<u8>)
    ensures
        forall|i: int|
            0 <= i < percent_bytes(bytes).len() ==> may_be_encoded(#[trigger] percent_bytes(bytes)[i]),
    decreases bytes.len(),
{
    if bytes.len() > 0 {
        let head = percent_byte(bytes[0]);
        lemma_percent_byte(bytes[0]);
        lemma_percent_bytes(bytes.skip(1));
        assert forall|i: int| 0 <= i < percent_bytes(bytes).len() implies may_be_encoded(
            #[trigger] percent_bytes(bytes)[i],
        ) by {
            if i < head.len() {
                assert(percent_bytes(bytes)[i] == head[i]);
            } else {
                assert(percent_bytes(bytes)[i] == percent_bytes(bytes.skip(1))[i - head.len()]);
            }
        }
    }
}

proof fn lemma_percent_bytes_differ(a: Seq<u8>, b: Seq<u8>)
    requires
        percent_bytes(a) == percent_bytes(b),
    ensures
        a == b,
    decreases a.len(),
{
    if a.len() == 0 {
        assert(b.len() == 0) by {
            if b.len() > 0 {
                assert(percent_bytes(b).len() > 0);
            }
        }
        assert(a =~= b);
    } else if b.len() == 0 {
        assert(percent_bytes(a) == percent_byte(a[0]) + percent_bytes(a.skip(1)));
        assert(percent_bytes(a).len() > 0);
    } else {
        let p = percent_byte(a[0]);
        let q = percent_byte(b[0]);
        lemma_percent_byte(a[0]);
        lemma_percent_byte(b[0]);
        let all = percent_bytes(a);
        assert(all[0] == p[0] && all[0] == q[0]);
        assert(p.len() == q.len());
        if !is_unreserved(a[0]) {
            assert(all[1] == p[1] && all[1] == q[1]);
            assert(all[2] == p[2] && all[2] == q[2]);
        }
        assert(a[0] == b[0]);
        assert(percent_bytes(a.skip(1)) =~= all.skip(p.len() as int));
        assert(percent_bytes(b.skip(1)) =~= all.skip(p.len() as int));
        lemma_percent_bytes_differ(a.skip(1), b.skip(1));
        assert(a =~= seq![a[0]] + a.skip(1));
        assert(b =~= seq![b[0]] + b.skip(1));
    }
}

/// Different texts have different encoded forms.
pub proof fn law_encoded_texts_differ(a: Seq<char>, b: Seq<char>)
    requires
        percent_encoded(a) == percent_encoded(b),
    ensures
        a == b,
{
    lemma_percent_bytes_differ(encode_utf8(a), encode_utf8(b));
    encode_utf8_decode_utf8(a);
    encode_utf8_decode_utf8(b);
}

proof fn lemma_split_at(a: Seq<char>, x: Seq<char>, b: Seq<char>, y: Seq<char>, c: char)
    requires
        !a.contains(c),
        !b.contains(c),
        x.len() > 0 && x[0] == c,
        y.len() > 0 && y[0] == c,
        a + x == b + y,
    ensures
        a == b,
        x == y,
{
    let all = a + x;
    assert forall|j: int| 0 <= j < a.len() implies all[j] != c by {
        assert(all[j] == a[j]);
        assert(a.contains(a[j]));
    }
    assert forall|j: int| 0 <= j < b.len() implies all[j] != c by {
        assert(all[j] == b[j]);
        assert(b.contains(b[j]));
    }
    assert(all[a.len() as int] == x[0]);
    assert(all[b.len() as int] == y[0]);
    lemma_first_index_is(all, c, a.len() as int);
    lemma_first_index_is(all, c, b.len() as int);
    assert(a =~= all.take(a.len() as int));
    assert(b =~= all.take(a.len() as int));
    assert(x =~= all.skip(a.len() as int));
    assert(y =~= all.skip(a.len() as int));
}

/// On one relay, different nodes and different connections have different URLs.
pub proof fn law_urls_tell_ids_apart(
    relay_base: Seq<char>,
    role: Seq<char>,
    server_id: Seq<char>,
    connection_id: Option<Seq<char>>,
    other_server_id: Seq<char>,
    other_connection_id: Option<Seq<char>>,
)
    requires
        ws_url(relay_base, server_id, role, connection_id) == ws_url(
            relay_base,
            other_server_id,
            role,
            other_connection_id,
        ),
    ensures
        server_id == other_server_id,
        connection_id == other_connection_id,
{
    reveal_strlit("&role=");
    reveal_strlit("&connectionId=");
    let before = ws_base(relay_base) + "?serverId="@;
    let middle = "&role="@ + role + "&v=2"@;
    let a = percent_encoded(server_id);
    let x = middle + connection_query(connection_id);
    let b = percent_encoded(other_server_id);
    let y = middle + connection_query(other_connection_id);
    assert(ws_url(relay_base, server_id, role, connection_id) =~= before + (a + x));
    assert(ws_url(relay_base, other_server_id, role, other_connection_id) =~= before + (b + y));
    assert(a + x =~= (before + (a + x)).skip(before.len() as int));
    assert(b + y =~= (before + (b + y)).skip(before.len() as int));
    law_encoded_texts_are_plain(server_id);
    law_encoded_texts_are_plain(other_server_id);
    assert(x[0] == "&role="@[0] && y[0] == "&role="@[0]);
    lemma_split_at(a, x, b, y, '&');
    law_encoded_texts_differ(server_id, other_server_id);
    assert(connection_query(connection_id) =~= x.skip(middle.len() as int));
    assert(connection_query(other_connection_id) =~= y.skip(middle.len() as int));
    match (connection_id, other_connection_id) {
        (Some(id), Some(other)) => {
            let n = "&connectionId="@.len() as int;
            assert(percent_encoded(id) =~= connection_query(connection_id).skip(n));
            assert(percent_encoded(other) =~= connection_query(other_connection_id).skip(n));
            law_encoded_texts_differ(id, other);
        },
        (Some(id), None) => {
            assert(connection_query(connection_id).len() > 0);
        },
        (None, Some(other)) => {
            assert(connection_query(other_connection_id).len() > 0);
        },
        (None, None) => {},
    }
}

/// Slashes at the end of the relay's base URL make no difference.
pub proof fn law_trailing_slashes_make_no_difference(
    relay_base: Seq<char>,
    server_id: Seq<char>,
    role: Seq<char>,
    connection_id: Option<Seq<char>>,
)
    ensures
        ws_url(relay_base.push('/'), server_id, role, connection_id) == ws_url(
            relay_base,
            server_id,
            role,
            connection_id,
        ),
{
    assert(relay_base.push('/').drop_last() =~= relay_base);
}

/// A base URL that names the path of the web socket is taken as it is: the path
/// does not come twice.
pub proof fn law_the_path_comes_once(
    base: Seq<char>,
    server_id: Seq<char>,
    role: Seq<char>,
    connection_id: Option<Seq<char>>,
)
    requires
        base.len() == 0 || base.last() != '/',
        !"/ws"@.is_suffix_of(base),
    ensures
        ws_url(base + "/ws"@, server_id, role, connection_id) == ws_url(
            base,
            server_id,
            role,
            connection_id,
        ),
{
    reveal_strlit("/ws");
    reveal_strlit("http://");
    reveal_strlit("https://");
    reveal_strlit("ws://");
    reveal_strlit("wss://");
    let path = "/ws"@;
    let long = base + path;
    assert(long.last() == path[2]);
    assert(trim_end_char(long, '/') == long);
    assert(trim_end_char(base, '/') == base);
    lemma_prefix_before_path(base, "http://"@);
    lemma_prefix_before_path(base, "https://"@);
    assert(ws_scheme(long) =~= ws_scheme(base) + path);
    assert(path.is_suffix_of(ws_scheme(long))) by {
        let n = ws_scheme(base).len() as int;
        assert(ws_scheme(long).subrange(n, n + 3) =~= path);
    }
    assert(!path.is_suffix_of(ws_scheme(base))) by {
        if path.is_suffix_of(ws_scheme(base)) {
            let to = ws_scheme(base);
            let n = to.len() as int;
            let m = base.len() as int;
            assert(path =~= to.subrange(n - 3, n));
            assert(to[n - 3] == path[0] && to[n - 2] == path[1] && to[n - 1] == path[2]);
            if "http://"@.is_prefix_of(base) {
                assert(base[6] == "http://"@[6]);
                assert(m > 7);
                assert(n == m - 2);
                assert(forall|i: int| 5 <= i < n ==> #[trigger] to[i] == base[i + 2]);
                assert(base[6] == '/' && to[4] == "ws://"@[4]);
                assert(base[5] == "http://"@[5] && to[3] == "ws://"@[3]);
                assert(base.subrange(m - 3, m) =~= path);
            } else if "https://"@.is_prefix_of(base) {
                assert(base[7] == "https://"@[7]);
                assert(m > 8);
                assert(n == m - 2);
                assert(forall|i: int| 6 <= i < n ==> #[trigger] to[i] == base[i + 2]);
                assert(base[7] == '/' && to[5] == "wss://"@[5]);
                assert(base[6] == "https://"@[6] && to[4] == "wss://"@[4]);
                assert(base.subrange(m - 3, m) =~= path);
            }
        }
    }
}

proof fn lemma_prefix_before_path(base: Seq<char>, prefix: Seq<char>)
    requires
        base.len() == 0 || base.last() != '/',
        prefix == "http://"@ || prefix == "https://"@,
    ensures
        prefix.is_prefix_of(base + "/ws"@) == prefix.is_prefix_of(base),
        prefix.is_prefix_of(base) ==> (base + "/ws"@).skip(prefix.len() as int) == base.skip(
            prefix.len() as int,
        ) + "/ws"@,
{
    reveal_strlit("/ws");
    reveal_strlit("http://");
    reveal_strlit("https://");
    let long = base + "/ws"@;
    let n = prefix.len() as int;
    if prefix.is_prefix_of(base) {
        assert(prefix =~= long.take(n));
        assert(long.skip(n) =~= base.skip(n) + "/ws"@);
    } else if prefix.is_prefix_of(long) {
        assert(prefix == long.take(n));
        let m = base.len() as int;
        assert(m < n) by {
            if m >= n {
                assert(prefix =~= base.take(n));
            }
        }
        assert(long[m] == "/ws"@[0] && long[m] == prefix[m]);
        if m > 0 {
            assert(long[m - 1] == base[m - 1] && long[m - 1] == prefix[m - 1]);
        }
        if m + 1 < n {
            assert(long[m + 1] == "/ws"@[1] && long[m + 1] == prefix[m + 1]);
        }
    }
}

/// Bytes are encoded one by one, in order.
pub proof fn law_bytes_are_encoded_one_by_one(a: Seq<u8>, b: Seq<u8>)
    ensures
        percent_bytes(Seq::empty()) == Seq::<char>::empty(),
        percent_bytes(a + b) == percent_bytes(a) + percent_bytes(b),
    decreases a.len(),
{
    if a.len() == 0 {
        assert(a + b =~= b);
        assert(percent_bytes(a) + percent_bytes(b) =~= percent_bytes(b));
    } else {
        law_bytes_are_encoded_one_by_one(a.skip(1), b);
        assert((a + b)[0] == a[0]);
        assert((a + b).skip(1) =~= a.skip(1) + b);
        assert(percent_bytes(a + b) =~= percent_bytes(a) + percent_bytes(b));
    }
}

/// A letter, a digit, `-`, `.`, `_` or `~` is encoded as itself; every other byte as a
/// percent sign and its two upper-case hexadecimal digits.
pub proof fn law_one_byte_encoded(b: u8)
    ensures
        ({
            let text = percent_bytes(seq![b]);
            let digits = "0123456789ABCDEF"@;
            if (0x30 <= b <= 0x39) || (0x41 <= b <= 0x5a) || (0x61 <= b <= 0x7a) || b == '-' as u8
                || b == '.' as u8 || b == '_' as u8 || b == '~' as u8 {
                text.len() == 1 && text[0] as int == b
            } else {
                &&& text.len() == 3
                &&& text[0] == '%'
                &&& text[1] == digits[b as int / 16]
                &&& text[2] == digits[b as int % 16]
            }
        }),
{
    reveal_strlit("0123456789ABCDEF");
    assert('-' as u8 == 0x2d && '.' as u8 == 0x2e && '_' as u8 == 0x5f && '~' as u8 == 0x7e);
    assert(seq![b].skip(1) =~= Seq::<u8>::empty());
    assert(percent_bytes(seq![b].skip(1)) == Seq::<char>::empty());
    assert(percent_bytes(seq![b]) =~= percent_byte(b));
}

/// The number that an upper-case hexadecimal digit stands for.
pub open spec fn upper_digit_value(c: char) -> int {
    if '0' <= c <= '9' {
        c as int - '0' as int
    } else {
        c as int - 'A' as int + 10
    }
}

/// The bytes that an encoded text stands for.
pub open spec fn percent_read(text: Seq<char>) -> Seq<u8>
    decreases text.len(),
{
    if text.len() == 0 {
        Seq::empty()
    } else if text[0] == '%' && text.len() >= 3 {
        seq![(upper_digit_value(text[1]) * 16 + upper_digit_value(text[2])) as u8] + percent_read(
            text.skip(3),
        )
    } else {
        seq![text[0] as u8] + percent_read(text.skip(1))
    }
}

proof fn lemma_percent_read(bytes: Seq<u8>)
    ensures
        percent_read(percent_bytes(bytes)) == bytes,
    decreases bytes.len(),
{
    let text = percent_bytes(bytes);
    if bytes.len() > 0 {
        let b = bytes[0];
        let head = percent_byte(b);
        let rest = percent_bytes(bytes.skip(1));
        lemma_percent_read(bytes.skip(1));
        lemma_percent_byte(b);
        assert(text.skip(head.len() as int) =~= rest);
        assert(text[0] == head[0]);
        if is_unreserved(b) {
            assert(text[0] != '%');
            assert(text[0] as u8 == b);
        } else {
            assert(text[1] == head[1] && text[2] == head[2]);
            assert(upper_digit_value(text[1]) == b as int / 16);
            assert(upper_digit_value(text[2]) == b as int % 16);
        }
        assert(percent_read(text) =~= bytes);
        assert(bytes =~= seq![b] + bytes.skip(1));
    } else {
        assert(percent_read(text) =~= bytes);
    }
}

/// Who decodes an encoded text gets the whole UTF-8 form of the text.
pub proof fn law_encoded_texts_read_back(s: Seq<char>)
    ensures
        percent_encoded(s) == percent_bytes(encode_utf8(s)),
        percent_read(percent_encoded(s)) == encode_utf8(s),
{
    lemma_percent_read(encode_utf8(s));
}

/// A text that ends in the path of the web socket, with the path added if it is not
/// there.
pub open spec fn ending_in_path(s: Seq<char>) -> Seq<char> {
    let n = s.len() as int;
    if n >= 3 && s[n - 3] == '/' && s[n - 2] == 'w' && s[n - 1] == 's' {
        s
    } else {
        s + seq!['/', 'w', 's']
    }
}

/// The query that names a node, a role and a connection.
pub open spec fn full_query(
    server_id: Seq<char>,
    role: Seq<char>,
    connection_id: Option<Seq<char>>,
) -> Seq<char> {
    "?serverId="@ + percent_encoded(server_id) + "&role="@ + role + "&v=2"@ + (
    if connection_id is Some {
        "&connectionId="@ + percent_encoded(connection_id->0)
    } else {
        Seq::empty()
    })
}

proof fn lemma_url(
    base: Seq<char>,
    slashes: nat,
    server_id: Seq<char>,
    role: Seq<char>,
    connection_id: Option<Seq<char>>,
)
    requires
        base.len() == 0 || base.last() != '/',
    ensures
        ws_url(base + repeated('/', slashes), server_id, role, connection_id) == ending_in_path(
            ws_scheme(base),
        ) + full_query(server_id, role, connection_id),
{
    reveal_strlit("/ws");
    law_trimming_a_character_takes_it_only(base, '/', slashes);
    let root = ws_scheme(base);
    let n = root.len() as int;
    let path = "/ws"@;
    assert(path =~= seq!['/', 'w', 's']);
    assert(path.is_suffix_of(root) <==> n >= 3 && root[n - 3] == '/' && root[n - 2] == 'w'
        && root[n - 1] == 's') by {
        if n >= 3 {
            let end = root.subrange(n - 3, n);
            if path.is_suffix_of(root) {
                assert(end =~= path);
                assert(end[0] == path[0] && end[1] == path[1] && end[2] == path[2]);
            }
            if root[n - 3] == '/' && root[n - 2] == 'w' && root[n - 1] == 's' {
                assert(end =~= path);
            }
        }
    }
    assert(ws_url(base + repeated('/', slashes), server_id, role, connection_id)
        =~= ending_in_path(root) + full_query(server_id, role, connection_id));
}

/// The URL of a relay: a base URL with `http` or `https` gets the scheme of a web
/// socket, any other one stays; slashes at its end are taken away; the path is added
/// if it is not there; and the query names the node, the role, the version and the
/// connection, the two ids encoded.
pub proof fn law_urls_of_relays(
    rest: Seq<char>,
    slashes: nat,
    server_id: Seq<char>,
    role: Seq<char>,
    connection_id: Option<Seq<char>>,
)
    requires
        rest.len() == 0 || rest.last() != '/',
    ensures
        rest.len() > 0 ==> ws_url(
            "http://"@ + rest + repeated('/', slashes),
            server_id,
            role,
            connection_id,
        ) == ending_in_path("ws://"@ + rest) + full_query(server_id, role, connection_id),
        rest.len() > 0 ==> ws_url(
            "https://"@ + rest + repeated('/', slashes),
            server_id,
            role,
            connection_id,
        ) == ending_in_path("wss://"@ + rest) + full_query(server_id, role, connection_id),
        !"http://"@.is_prefix_of(rest) && !"https://"@.is_prefix_of(rest) ==> ws_url(
            rest + repeated('/', slashes),
            server_id,
            role,
            connection_id,
        ) == ending_in_path(rest) + full_query(server_id, role, connection_id),
{
    reveal_strlit("http://");
    reveal_strlit("https://");
    let plain = "http://"@ + rest;
    let secure = "https://"@ + rest;
    assert(plain.take(7) =~= "http://"@);
    assert(plain.skip(7) =~= rest);
    assert(secure.take(8) =~= "https://"@);
    assert(secure.skip(8) =~= rest);
    assert(secure[4] == "https://"@[4]);
    assert(!"http://"@.is_prefix_of(secure)) by {
        if "http://"@.is_prefix_of(secure) {
            assert("http://"@ == secure.subrange(0, 7));
            assert(secure.subrange(0, 7)[4] == secure[4]);
        }
    }
    assert("http://"@.is_prefix_of(plain));
    assert("https://"@.is_prefix_of(secure));
    lemma_url(rest, slashes, server_id, role, connection_id);
    if rest.len() > 0 {
        lemma_url(plain, slashes, server_id, role, connection_id);
        lemma_url(secure, slashes, server_id, role, connection_id);
    }
}

/// Ids of up to a hundred million bytes can be encoded on every machine.
pub proof fn law_ordinary_ids_can_be_encoded(s: Seq<char>)
    requires
        encode_utf8(s).len() <= 100_000_000,
    ensures
        is_encodable(s),
{
}

} // verus!
