//! The type manifest: the ordered names of a connection's message types, which
//! both peers must agree on before any message is sent.

use vstd::prelude::*;
use vstd::string::*;
use vstd::utf8;

use crate::error::TransportError;
use crate::wire::MAX_MANIFEST_BYTES;

verus! {

/// The protocol header: the letters `SEEK` and the version of the wire format.
pub const MAGIC: [u8; 8] = [0x53, 0x45, 0x45, 0x4b, 0, 0, 0, 2];

/// The length of [`MAGIC`].
pub const MAGIC_BYTES: usize = 8;

/// The readiness byte.
pub const READY: u8 = 1;

/// `names` on lines of their own.
pub open spec fn lines(names: Seq<Seq<char>>) -> Seq<char>
    decreases names.len(),
{
    if names.len() == 0 {
        Seq::empty()
    } else if names.len() == 1 {
        names[0]
    } else {
        names[0] + seq!['\n'] + lines(names.drop_first())
    }
}

/// The characters of each name.
pub open spec fn name_views(names: Seq<&str>) -> Seq<Seq<char>> {
    names.map_values(|name: &str| name@)
}

/// Whether `name` stands on one line.
pub open spec fn on_one_line(name: Seq<char>) -> bool {
    !name.contains('\n')
}

/// What a peer sends first: the protocol header, and its manifest in a frame.
pub open spec fn preamble(manifest: Seq<u8>) -> Seq<u8> {
    MAGIC@ + crate::wire::frame(manifest)
}

/// The manifest of an ordered list of type names.
pub fn manifest(names: &[&str]) -> (text: String)
    ensures
        text@ == lines(name_views(names@)),
{
    let ghost views = name_views(names@);
    let mut text = String::new();
    let count = names.len();
    if count == 0 {
        assert(text@ =~= lines(views));
        return text;
    }
    let mut at: usize = count - 1;
    text.append(names[at]);
    proof {
        assert(views.skip(at as int) =~= seq![names@[at as int]@]);
        assert(text@ =~= lines(views.skip(at as int)));
    }
    while at > 0
        invariant
            at < names@.len(),
            views == name_views(names@),
            text@ == lines(views.skip(at as int)),
        decreases at,
    {
        let mut longer = names[at - 1].to_owned();
        proof {
            reveal_strlit("\n");
            assert("\n"@ =~= seq!['\n']);
        }
        longer.append("\n");
        longer.append(text.as_str());
        text = longer;
        proof {
            let here = views.skip(at - 1);
            assert(here.drop_first() =~= views.skip(at as int));
            assert(here[0] == names@[at - 1]@);
        }
        at = at - 1;
    }
    assert(views.skip(0) =~= views);
    text
}

/// Whether two byte strings are equal.
fn same_bytes(a: &[u8], b: &[u8]) -> (same: bool)
    ensures
        same == (a@ == b@),
{
    if a.len() != b.len() {
        return false;
    }
    let mut at: usize = 0;
    while at < a.len()
        invariant
            a@.len() == b@.len(),
            at <= a@.len(),
            forall|i: int| 0 <= i < at ==> a@[i] == b@[i],
        decreases a@.len() - at,
    {
        if a[at] != b[at] {
            assert(a@[at as int] != b@[at as int]);
            return false;
        }
        at = at + 1;
    }
    assert(a@ =~= b@);
    true
}

/// Decides whether a manifest may be sent.
pub fn send_manifest(manifest: &str) -> (result: Result<(), TransportError>)
    ensures
        result == if utf8::encode_utf8(manifest@).len() > MAX_MANIFEST_BYTES {
            Err::<(), TransportError>(TransportError::ManifestTooLarge)
        } else {
            Ok(())
        },
{
    if manifest.as_bytes().len() > MAX_MANIFEST_BYTES {
        Err(TransportError::ManifestTooLarge)
    } else {
        Ok(())
    }
}

/// Judges the protocol header of the peer.
pub fn check_magic(magic: &[u8]) -> (result: Result<(), TransportError>)
    ensures
        result == if magic@ == MAGIC@ {
            Ok(())
        } else {
            Err::<(), TransportError>(TransportError::ProtocolMismatch)
        },
{
    let expected = MAGIC;
    if same_bytes(magic, expected.as_slice()) {
        Ok(())
    } else {
        Err(TransportError::ProtocolMismatch)
    }
}

/// Judges the manifest frame of the peer; `None` where its stream was finished
/// before the frame.
pub fn check_manifest(actual: Option<Vec<u8>>, expected: &str) -> (result: Result<
    (),
    TransportError,
>)
    ensures
        result == match actual {
            None => Err::<(), TransportError>(TransportError::MissingManifest),
            Some(bytes) => if bytes@ == utf8::encode_utf8(expected@) {
                Ok(())
            } else {
                Err(TransportError::ManifestMismatch)
            },
        },
{
    match actual {
        None => Err(TransportError::MissingManifest),
        Some(bytes) => if same_bytes(bytes.as_slice(), expected.as_bytes()) {
            Ok(())
        } else {
            Err(TransportError::ManifestMismatch)
        },
    }
}

/// Where the first line of a manifest ends.
proof fn lemma_first_line(names: Seq<Seq<char>>)
    requires
        names.len() > 0,
        on_one_line(names[0]),
    ensures
        forall|i: int|
            0 <= i < names[0].len() ==> (#[trigger] lines(names)[i]) != '\n',
        names.len() > 1 ==> lines(names).len() > names[0].len() && lines(
            names,
        )[names[0].len() as int] == '\n',
        lines(names).len() >= names[0].len(),
        lines(names).take(names[0].len() as int) == names[0],
{
    let text = lines(names);
    assert(text.take(names[0].len() as int) =~= names[0]);
    assert forall|i: int| 0 <= i < names[0].len() implies (#[trigger] text[i]) != '\n' by {
        assert(text[i] == names[0][i]);
        assert(names[0].contains(names[0][i]));
    }
}

/// Lists of names with the same manifest are the same list.
proof fn lemma_lines_determine_names(a: Seq<Seq<char>>, b: Seq<Seq<char>>)
    requires
        a.len() > 0,
        b.len() > 0,
        forall|i: int| 0 <= i < a.len() ==> on_one_line(#[trigger] a[i]),
        forall|i: int| 0 <= i < b.len() ==> on_one_line(#[trigger] b[i]),
        lines(a) == lines(b),
    ensures
        a == b,
    decreases a.len(),
{
    lemma_first_line(a);
    lemma_first_line(b);
    let text = lines(a);
    if a[0].len() < b[0].len() {
        assert(text[a[0].len() as int] != '\n');
        assert(a.len() == 1);
        assert(text.len() == a[0].len());
        assert(false);
    }
    if b[0].len() < a[0].len() {
        assert(lines(a)[b[0].len() as int] != '\n');
        assert(b.len() == 1);
        assert(false);
    }
    assert(a[0] == b[0]);
    if a.len() == 1 || b.len() == 1 {
        assert(a =~= b);
    } else {
        let n = a[0].len() as int;
        let x = a.drop_first();
        let y = b.drop_first();
        assert(lines(x) =~= text.skip(n + 1));
        assert(lines(y) =~= lines(b).skip(n + 1));
        assert forall|i: int| 0 <= i < x.len() implies on_one_line(#[trigger] x[i]) by {
            assert(x[i] == a[i + 1]);
        }
        assert forall|i: int| 0 <= i < y.len() implies on_one_line(#[trigger] y[i]) by {
            assert(y[i] == b[i + 1]);
        }
        lemma_lines_determine_names(x, y);
        assert(a =~= seq![a[0]] + x);
        assert(b =~= seq![b[0]] + y);
    }
}

/// The manifest tells ordered type lists apart: two lists of names have the
/// same manifest, in characters and in the bytes that are compared on the wire,
/// if and only if they are of one length and agree position by position.
pub proof fn law_manifest_determines_types(a: Seq<Seq<char>>, b: Seq<Seq<char>>)
    requires
        a.len() > 0,
        b.len() > 0,
        forall|i: int| 0 <= i < a.len() ==> on_one_line(#[trigger] a[i]),
        forall|i: int| 0 <= i < b.len() ==> on_one_line(#[trigger] b[i]),
    ensures
        lines(a) == lines(b) <==> a.len() == b.len() && (forall|i: int|
            0 <= i < a.len() ==> #[trigger] a[i] == b[i]),
        utf8::encode_utf8(lines(a)) == utf8::encode_utf8(lines(b)) <==> a == b,
{
    utf8::encode_utf8_decode_utf8(lines(a));
    utf8::encode_utf8_decode_utf8(lines(b));
    if lines(a) == lines(b) {
        lemma_lines_determine_names(a, b);
    }
    if a.len() == b.len() && (forall|i: int| 0 <= i < a.len() ==> #[trigger] a[i] == b[i]) {
        assert(a =~= b);
    }
}

/// A manifest is its names in their order with a line break between each two:
/// the manifest of one name is that name, and the manifest of two lists on end
/// is that of the first, a line break, and that of the second.
pub proof fn law_manifest_joins_its_names(a: Seq<Seq<char>>, b: Seq<Seq<char>>, name: Seq<char>)
    requires
        a.len() > 0,
        b.len() > 0,
    ensures
        lines(a + b) == lines(a) + seq!['\n'] + lines(b),
        lines(seq![name]) == name,
        lines(Seq::<Seq<char>>::empty()) == Seq::<char>::empty(),
    decreases a.len(),
{
    let all = a + b;
    if a.len() == 1 {
        assert(all.drop_first() =~= b);
        assert(lines(all) =~= lines(a) + seq!['\n'] + lines(b));
    } else {
        law_manifest_joins_its_names(a.drop_first(), b, name);
        assert(all.drop_first() =~= a.drop_first() + b);
        assert(lines(all) =~= lines(a) + seq!['\n'] + lines(b));
    }
}

/// A preamble is the protocol header, the length of the manifest, and the
/// manifest as it is.
pub proof fn law_preamble_holds_its_manifest(manifest: Seq<u8>)
    ensures
        preamble(manifest).len() == 12 + manifest.len(),
        preamble(manifest).take(8) == MAGIC@,
        preamble(manifest).subrange(8, 12) == crate::wire::be32(manifest.len() as int),
        preamble(manifest).skip(12) == manifest,
{
    assert(MAGIC@.len() == 8);
    assert(preamble(manifest).take(8) =~= MAGIC@);
    assert(preamble(manifest).subrange(8, 12) =~= crate::wire::be32(manifest.len() as int));
    assert(preamble(manifest).skip(12) =~= manifest);
}

} // verus!
