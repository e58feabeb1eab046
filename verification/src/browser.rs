//! The routes under which a browser finds a match, and the limits that it can count on.

use crate::control::{CONTROL_FORMAT_VERSION, MAX_CONTROL_PAYLOAD_BYTES};
use crate::host::{is_route_safe, MatchId, MatchIdError};
use crate::protocol::{
    MAX_COMMAND_PAYLOAD_BYTES, MAX_SNAPSHOT_PAYLOAD_BYTES, PROTOCOL_VERSION, RECONNECT_TOKEN_BYTES,
};
use crate::session::ReconnectToken;
use crate::text::{characters, chars_begin_with, same_text, split_parts};
use vstd::prelude::*;
use vstd::slice::slice_subrange;
use vstd::string::*;

verus! {

pub const BROWSER_ROUTE_VERSION: u8 = 1;

pub const BROWSER_MATCH_SEGMENT: &'static str = "matches";

pub const BROWSER_RECONNECT_SEGMENT: &'static str = "reconnect";

#[derive(Clone, Copy, Debug, Eq, PartialEq)]
pub struct BrowserProtocolContract {
    pub route_version: u8,
    pub game_protocol_version: u8,
    pub control_format_version: u8,
    pub reconnect_token_bytes: usize,
    pub max_command_payload_bytes: usize,
    pub max_snapshot_payload_bytes: usize,
    pub max_control_payload_bytes: usize,
}

/// The versions and limits that a browser can count on.
pub fn browser_protocol_contract() -> (contract: BrowserProtocolContract)
    ensures
        contract == (BrowserProtocolContract {
            route_version: BROWSER_ROUTE_VERSION,
            game_protocol_version: PROTOCOL_VERSION,
            control_format_version: CONTROL_FORMAT_VERSION,
            reconnect_token_bytes: RECONNECT_TOKEN_BYTES,
            max_command_payload_bytes: MAX_COMMAND_PAYLOAD_BYTES,
            max_snapshot_payload_bytes: MAX_SNAPSHOT_PAYLOAD_BYTES,
            max_control_payload_bytes: MAX_CONTROL_PAYLOAD_BYTES,
        }),
{
    BrowserProtocolContract {
        route_version: BROWSER_ROUTE_VERSION,
        game_protocol_version: PROTOCOL_VERSION,
        control_format_version: CONTROL_FORMAT_VERSION,
        reconnect_token_bytes: RECONNECT_TOKEN_BYTES,
        max_command_payload_bytes: MAX_COMMAND_PAYLOAD_BYTES,
        max_snapshot_payload_bytes: MAX_SNAPSHOT_PAYLOAD_BYTES,
        max_control_payload_bytes: MAX_CONTROL_PAYLOAD_BYTES,
    }
}

#[derive(Clone, Debug, Eq, PartialEq)]
pub enum BrowserAdmission {
    New,
    Reconnect(ReconnectToken),
}

#[derive(Clone, Debug, Eq, PartialEq)]
pub struct BrowserSessionRoute {
    pub match_id: MatchId,
    pub admission: BrowserAdmission,
}

/// What a route asks for: a match, and the token of a returning player.
#[verifier::ext_equal]
pub struct RouteView {
    pub match_id: Seq<char>,
    pub token: Option<Seq<u8>>,
}

impl View for BrowserSessionRoute {
    type V = RouteView;

    open spec fn view(&self) -> RouteView {
        RouteView {
            match_id: self.match_id@,
            token: match self.admission {
                BrowserAdmission::New => None,
                BrowserAdmission::Reconnect(token) => Some(token.0@),
            },
        }
    }
}

#[derive(Clone, Copy, Debug, Eq, PartialEq, Structural)]
pub enum BrowserRouteError {
    InvalidBasePath,
    InvalidMatchId(MatchIdError),
    InvalidReconnectToken,
    InvalidRouteShape,
}

impl BrowserRouteError {
    /// The sentence that describes the error.
    pub open spec fn message(self) -> Seq<char> {
        match self {
            BrowserRouteError::InvalidBasePath =>
                "browser route base path must use canonical absolute ASCII segments containing only letters, digits, '-' or '_'"@,
            BrowserRouteError::InvalidMatchId(error) => "invalid browser match id: "@
                + error.message(),
            BrowserRouteError::InvalidReconnectToken => "invalid browser reconnect token"@,
            BrowserRouteError::InvalidRouteShape => "invalid browser session route shape"@,
        }
    }

    pub fn to_string(&self) -> (text: String)
        ensures
            text@ == self.message(),
    {
        match self {
            BrowserRouteError::InvalidBasePath =>
                "browser route base path must use canonical absolute ASCII segments containing only letters, digits, '-' or '_'".to_owned(),
            BrowserRouteError::InvalidMatchId(error) => {
                let mut text = "invalid browser match id: ".to_owned();
                text.push_str(error.to_string().as_str());
                text
            },
            BrowserRouteError::InvalidReconnectToken =>
                "invalid browser reconnect token".to_owned(),
            BrowserRouteError::InvalidRouteShape =>
                "invalid browser session route shape".to_owned(),
        }
    }
}

/// Whether a route segment is not empty and free of characters that would need escaping.
pub open spec fn canonical_segment(segment: Seq<char>) -> bool {
    &&& segment.len() > 0
    &&& forall|i: int| 0 <= i < segment.len() ==> crate::host::route_safe(#[trigger] segment[i])
}

/// Whether a text is an absolute path of canonical segments.
pub open spec fn canonical_base(text: Seq<char>) -> bool {
    &&& text.len() >= 2
    &&& text[0] == '/'
    &&& text.last() != '/'
    &&& forall|i: int|
        0 <= i < crate::text::parts(text.skip(1), '/').len() ==> canonical_segment(
            #[trigger] crate::text::parts(text.skip(1), '/')[i],
        )
}

/// The path of a match below a base path.
pub open spec fn match_route(base: Seq<char>, match_id: Seq<char>) -> Seq<char> {
    base + "/"@ + BROWSER_MATCH_SEGMENT@ + "/"@ + match_id
}

/// The path of a returning player below a base path.
pub open spec fn reconnect_route(base: Seq<char>, match_id: Seq<char>, token: Seq<u8>) -> Seq<char> {
    match_route(base, match_id) + "/"@ + BROWSER_RECONNECT_SEGMENT@ + "/"@ + crate::session::hex_text(token)
}

/// What the segments behind the match prefix ask for.
pub open spec fn segments_meaning(segments: Seq<Seq<char>>) -> Result<
    Option<RouteView>,
    BrowserRouteError,
> {
    let id = segments[0];
    if crate::host::match_id_fault(id) is Some {
        Err(BrowserRouteError::InvalidMatchId(crate::host::match_id_fault(id)->0))
    } else if segments.len() == 1 {
        Ok(Some(RouteView { match_id: id, token: None }))
    } else if segments.len() == 3 && segments[1] == BROWSER_RECONNECT_SEGMENT@ {
        match crate::session::hex_token(vstd::utf8::encode_utf8(segments[2])) {
            Some(token) => Ok(Some(RouteView { match_id: id, token: Some(token) })),
            None => Err(BrowserRouteError::InvalidReconnectToken),
        }
    } else {
        Err(BrowserRouteError::InvalidRouteShape)
    }
}

/// What a path asks for below a base path: nothing of this server, a session, or nonsense.
pub open spec fn path_meaning(base: Seq<char>, path: Seq<char>) -> Result<
    Option<RouteView>,
    BrowserRouteError,
> {
    let prefix = match_route(base, Seq::empty());
    if !crate::text::begins_with(path, prefix) {
        Ok(None)
    } else {
        segments_meaning(crate::text::parts(path.skip(prefix.len() as int), '/'))
    }
}

/// The base path under which a server offers its matches.
#[derive(Debug, Eq, PartialEq)]
pub struct BrowserRoutePrefix(String);

impl View for BrowserRoutePrefix {
    type V = Seq<char>;

    closed spec fn view(&self) -> Seq<char> {
        self.0@
    }
}

impl Clone for BrowserRoutePrefix {
    fn clone(&self) -> (copy: Self)
        ensures
            copy == *self,
    {
        proof {
            use_type_invariant(self);
        }
        BrowserRoutePrefix(self.0.clone())
    }
}

impl BrowserRoutePrefix {
    /// A base path is canonical.
    #[verifier::type_invariant]
    spec fn well_formed(self) -> bool {
        canonical_base(self.0@)
    }

    /// The base path that `value` converts into.
    pub fn new<T: Into<String>>(value: T) -> (result: Result<Self, BrowserRouteError>)
        ensures
            exists|text: String| #[trigger]
                call_ensures(T::into, (value,), text) && match result {
                    Ok(prefix) => canonical_base(text@) && prefix@ == text@,
                    Err(error) => !canonical_base(text@) && error
                        == BrowserRouteError::InvalidBasePath,
                },
    {
        let text = value.into();
        assert(call_ensures(T::into, (value,), text));
        Self::from_text(text)
    }

    /// The base path that a text spells.
    pub fn from_text(text: String) -> (result: Result<Self, BrowserRouteError>)
        ensures
            match result {
                Ok(prefix) => canonical_base(text@) && prefix@ == text@,
                Err(error) => !canonical_base(text@) && error
                    == BrowserRouteError::InvalidBasePath,
            },
    {
        match validate_base_path(text.as_str()) {
            Ok(_) => Ok(BrowserRoutePrefix(text)),
            Err(error) => Err(error),
        }
    }

    pub fn as_str(&self) -> (text: &str)
        ensures
            text@ == self@,
            canonical_base(self@),
    {
        proof {
            use_type_invariant(self);
        }
        self.0.as_str()
    }

    /// The path of a match, which reads back as a new session in it.
    pub fn match_path(&self, match_id: &MatchId) -> (path: String)
        ensures
            path@ == match_route(self@, match_id@),
            path_meaning(self@, path@) == Ok::<Option<RouteView>, BrowserRouteError>(
                Some(RouteView { match_id: match_id@, token: None }),
            ),
    {
        let mut path = self.0.clone();
        path.push_str("/");
        path.push_str(BROWSER_MATCH_SEGMENT);
        path.push_str("/");
        path.push_str(match_id.as_str());
        proof {
            law_match_route_round_trip(self@, match_id@);
        }
        path
    }

    /// The path of a returning player, which reads back as that match and that token.
    pub fn reconnect_path(&self, match_id: &MatchId, token: ReconnectToken) -> (path: String)
        ensures
            path@ == reconnect_route(self@, match_id@, token.0@),
            path_meaning(self@, path@) == Ok::<Option<RouteView>, BrowserRouteError>(
                Some(RouteView { match_id: match_id@, token: Some(token.0@) }),
            ),
    {
        let mut path = self.match_path(match_id);
        path.push_str("/");
        path.push_str(BROWSER_RECONNECT_SEGMENT);
        path.push_str("/");
        path.push_str(token.encode_hex().as_str());
        proof {
            law_reconnect_route_round_trip(self@, match_id@, token);
        }
        path
    }

    /// Reads what a path asks for.
    pub fn parse(&self, path: &str) -> (result: Result<
        Option<BrowserSessionRoute>,
        BrowserRouteError,
    >)
        ensures
            match result {
                Ok(None) => path_meaning(self@, path@) == Ok::<
                    Option<RouteView>,
                    BrowserRouteError,
                >(None),
                Ok(Some(route)) => path_meaning(self@, path@) == Ok::<
                    Option<RouteView>,
                    BrowserRouteError,
                >(Some(route@)),
                Err(error) => path_meaning(self@, path@) == Err::<
                    Option<RouteView>,
                    BrowserRouteError,
                >(error),
            },
    {
        let mut prefix = self.0.clone();
        prefix.push_str("/");
        prefix.push_str(BROWSER_MATCH_SEGMENT);
        prefix.push_str("/");
        assert(prefix@ =~= match_route(self@, Seq::empty()));
        let chars = characters(path);
        if !chars_begin_with(chars.as_slice(), prefix.as_str()) {
            return Ok(None);
        }
        let skipped: usize = characters(prefix.as_str()).len();
        let rest = slice_subrange(chars.as_slice(), skipped, chars.len());
        assert(rest@ =~= path@.skip(prefix@.len() as int));
        let segments = split_parts(rest, '/');
        let ghost views = crate::text::parts(rest@, '/');
        proof {
            crate::text::lemma_parts_not_empty(rest@, '/');
            assert(segments@.len() == views.len());
            assert forall|i: int| 0 <= i < segments@.len() implies #[trigger] segments@[i]@
                == views[i] by {
                assert(crate::text::string_views(segments@)[i] == segments@[i]@);
            }
        }
        let match_id = match MatchId::from_text(segments[0].clone()) {
            Ok(match_id) => match_id,
            Err(error) => {
                return Err(BrowserRouteError::InvalidMatchId(error));
            },
        };
        if segments.len() == 1 {
            let route = BrowserSessionRoute { match_id, admission: BrowserAdmission::New };
            assert(route@ =~= (RouteView { match_id: views[0], token: None }));
            return Ok(Some(route));
        }
        if segments.len() == 3 && same_text(segments[1].as_str(), BROWSER_RECONNECT_SEGMENT) {
            let token = match ReconnectToken::decode_hex(segments[2].as_str()) {
                Some(token) => token,
                None => {
                    return Err(BrowserRouteError::InvalidReconnectToken);
                },
            };
            let route = BrowserSessionRoute {
                match_id,
                admission: BrowserAdmission::Reconnect(token),
            };
            assert(route@ =~= (RouteView { match_id: views[0], token: Some(token.0@) }));
            return Ok(Some(route));
        }
        Err(BrowserRouteError::InvalidRouteShape)
    }
}

fn is_canonical_segment(segment: &str) -> (canonical: bool)
    ensures
        canonical == canonical_segment(segment@),
{
    let chars = characters(segment);
    if chars.len() == 0 {
        return false;
    }
    let mut i: usize = 0;
    while i < chars.len()
        invariant
            i <= chars.len(),
            chars@ == segment@,
            forall|j: int| 0 <= j < i ==> crate::host::route_safe(#[trigger] segment@[j]),
        decreases chars.len() - i,
    {
        if !is_route_safe(chars[i]) {
            return false;
        }
        i = i + 1;
    }
    true
}

fn validate_base_path(value: &str) -> (result: Result<(), BrowserRouteError>)
    ensures
        match result {
            Ok(_) => canonical_base(value@),
            Err(error) => !canonical_base(value@) && error == BrowserRouteError::InvalidBasePath,
        },
{
    let chars = characters(value);
    if chars.len() < 2 || chars[0] != '/' || chars[chars.len() - 1] == '/' {
        return Err(BrowserRouteError::InvalidBasePath);
    }
    let rest = slice_subrange(chars.as_slice(), 1, chars.len());
    assert(rest@ =~= value@.skip(1));
    let segments = split_parts(rest, '/');
    let ghost views = crate::text::parts(rest@, '/');
    assert forall|i: int| 0 <= i < segments@.len() implies #[trigger] segments@[i]@ == views[i] by {
        assert(crate::text::string_views(segments@)[i] == segments@[i]@);
    }
    assert(segments@.len() == views.len());
    let mut i: usize = 0;
    while i < segments.len()
        invariant
            i <= segments.len(),
            segments@.len() == views.len(),
            views == crate::text::parts(value@.skip(1), '/'),
            forall|j: int| 0 <= j < segments@.len() ==> #[trigger] segments@[j]@ == views[j],
            forall|j: int| 0 <= j < i ==> canonical_segment(#[trigger] views[j]),
        decreases segments.len() - i,
    {
        if !is_canonical_segment(segments[i].as_str()) {
            assert(!canonical_segment(views[i as int]));
            return Err(BrowserRouteError::InvalidBasePath);
        }
        i = i + 1;
    }
    Ok(())
}

/// A route-safe piece is one part of its own.
proof fn lemma_one_part(piece: Seq<char>)
    requires
        forall|i: int| 0 <= i < piece.len() ==> #[trigger] piece[i] != '/',
    ensures
        crate::text::parts(piece, '/') == seq![piece],
{
    let nothing = Seq::<char>::empty();
    crate::text::lemma_parts_lengthen(nothing, piece, '/');
    assert(nothing + piece =~= piece);
    assert(crate::text::parts(nothing, '/') =~= seq![nothing]);
    assert(crate::text::parts(piece, '/') =~= seq![piece]);
}

/// A piece behind a separator is one more part.
proof fn lemma_one_more_part(text: Seq<char>, piece: Seq<char>)
    requires
        forall|i: int| 0 <= i < piece.len() ==> #[trigger] piece[i] != '/',
    ensures
        crate::text::parts(text + "/"@ + piece, '/') == crate::text::parts(text, '/').push(piece),
{
    reveal_strlit("/");
    let before = crate::text::parts(text, '/');
    assert(text + "/"@ =~= text.push('/'));
    crate::text::lemma_parts_separate(text, '/');
    crate::text::lemma_parts_lengthen(text.push('/'), piece, '/');
    let nothing = Seq::<char>::empty();
    assert(before.push(nothing).drop_last() =~= before);
    assert(nothing + piece =~= piece);
}

/// A match's path is read back as a new session in that match.
pub proof fn law_match_route_round_trip(base: Seq<char>, match_id: Seq<char>)
    requires
        crate::host::match_id_fault(match_id) is None,
    ensures
        path_meaning(base, match_route(base, match_id)) == Ok::<
            Option<RouteView>,
            BrowserRouteError,
        >(Some(RouteView { match_id, token: None })),
{
    let prefix = match_route(base, Seq::empty());
    let path = match_route(base, match_id);
    assert(path.take(prefix.len() as int) =~= prefix);
    assert(path.skip(prefix.len() as int) =~= match_id);
    lemma_one_part(match_id);
}

/// A returning player's path is read back as that match and that token.
pub proof fn law_reconnect_route_round_trip(
    base: Seq<char>,
    match_id: Seq<char>,
    token: ReconnectToken,
)
    requires
        crate::host::match_id_fault(match_id) is None,
    ensures
        path_meaning(base, reconnect_route(base, match_id, token.0@)) == Ok::<
            Option<RouteView>,
            BrowserRouteError,
        >(Some(RouteView { match_id, token: Some(token.0@) })),
{
    let prefix = match_route(base, Seq::empty());
    let path = reconnect_route(base, match_id, token.0@);
    let word = BROWSER_RECONNECT_SEGMENT@;
    let hex = crate::session::hex_text(token.0@);
    let rest = match_id + "/"@ + word + "/"@ + hex;
    assert(path.take(prefix.len() as int) =~= prefix);
    assert(path.skip(prefix.len() as int) =~= rest);
    assert forall|i: int| 0 <= i < word.len() implies #[trigger] word[i] != '/' by {
        reveal_strlit("reconnect");
    }
    assert forall|i: int| 0 <= i < hex.len() implies #[trigger] hex[i] != '/' by {}
    lemma_one_part(match_id);
    lemma_one_more_part(match_id, word);
    lemma_one_more_part(match_id + "/"@ + word, hex);
    crate::session::law_token_hex_round_trip(token);
    assert(crate::text::parts(rest, '/') =~= seq![match_id, word, hex]);
}

} // verus!
