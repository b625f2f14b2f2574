//! The kinds of entity that can be removed from a transcript.
use crate::text::{lowered, remove_class, same_text, stripped, to_ascii_lowercase, trim, without, CharClass};
use vstd::prelude::*;
use vstd::string::*;

verus! {

/// A kind of entity that can be removed from a transcript.
#[derive(Debug, Clone, Copy, PartialEq, Eq, Hash, Structural)]
pub enum AnonymiseEntityKind {
    Name,
    Location,
    Address,
    Phone,
    Email,
    Number,
    Organisation,
    Identifier,
}

/// Every kind, in the order in which they are offered.
pub open spec fn entity_order() -> Seq<AnonymiseEntityKind> {
    seq![
        AnonymiseEntityKind::Name,
        AnonymiseEntityKind::Location,
        AnonymiseEntityKind::Address,
        AnonymiseEntityKind::Phone,
        AnonymiseEntityKind::Email,
        AnonymiseEntityKind::Number,
        AnonymiseEntityKind::Organisation,
        AnonymiseEntityKind::Identifier,
    ]
}

/// Every kind, in the order in which they are offered.
pub fn anonymise_entity_order() -> (r: Vec<AnonymiseEntityKind>)
    ensures
        r@ == entity_order(),
{
    let r: Vec<AnonymiseEntityKind> =
        vec![
        AnonymiseEntityKind::Name,
        AnonymiseEntityKind::Location,
        AnonymiseEntityKind::Address,
        AnonymiseEntityKind::Phone,
        AnonymiseEntityKind::Email,
        AnonymiseEntityKind::Number,
        AnonymiseEntityKind::Organisation,
        AnonymiseEntityKind::Identifier,
    ];
    assert(r@ =~= entity_order());
    r
}

impl AnonymiseEntityKind {
    /// The key under which the language model reports this kind.
    #[verifier::allow_in_spec]
    pub fn key(self) -> &'static str
        returns
            match self {
                AnonymiseEntityKind::Name => "name",
                AnonymiseEntityKind::Location => "location",
                AnonymiseEntityKind::Address => "address",
                AnonymiseEntityKind::Phone => "phone",
                AnonymiseEntityKind::Email => "email",
                AnonymiseEntityKind::Number => "number",
                AnonymiseEntityKind::Organisation => "organisation",
                AnonymiseEntityKind::Identifier => "identifier",
            },
    {
        match self {
            AnonymiseEntityKind::Name => "name",
            AnonymiseEntityKind::Location => "location",
            AnonymiseEntityKind::Address => "address",
            AnonymiseEntityKind::Phone => "phone",
            AnonymiseEntityKind::Email => "email",
            AnonymiseEntityKind::Number => "number",
            AnonymiseEntityKind::Organisation => "organisation",
            AnonymiseEntityKind::Identifier => "identifier",
        }
    }

    /// What the kind is called on screen.
    #[verifier::allow_in_spec]
    pub fn label(self) -> &'static str
        returns
            match self {
                AnonymiseEntityKind::Name => "Names",
                AnonymiseEntityKind::Location => "Locations",
                AnonymiseEntityKind::Address => "Addresses",
                AnonymiseEntityKind::Phone => "Phone numbers",
                AnonymiseEntityKind::Email => "Email addresses",
                AnonymiseEntityKind::Number => "Other numbers",
                AnonymiseEntityKind::Organisation => "Organisations",
                AnonymiseEntityKind::Identifier => "Identifiers",
            },
    {
        match self {
            AnonymiseEntityKind::Name => "Names",
            AnonymiseEntityKind::Location => "Locations",
            AnonymiseEntityKind::Address => "Addresses",
            AnonymiseEntityKind::Phone => "Phone numbers",
            AnonymiseEntityKind::Email => "Email addresses",
            AnonymiseEntityKind::Number => "Other numbers",
            AnonymiseEntityKind::Organisation => "Organisations",
            AnonymiseEntityKind::Identifier => "Identifiers",
        }
    }
}


impl AnonymiseEntityKind {
    /// What the language model is told to look for.
    #[verifier::allow_in_spec]
    pub fn prompt_guidance(self) -> &'static str
        returns
            match self {
                AnonymiseEntityKind::Name => "Person names, initials, nicknames, and speaker names that identify a person. Ignore structural transcript labels/tokens (for example, SPEAKER_<number> tags and timing headers).",
                AnonymiseEntityKind::Location => "Any geographic/location reference: countries, regions, provinces/states, cities, villages, districts, streets, landmarks, venues, sites, departments, buildings.",
                AnonymiseEntityKind::Address => "Street or postal addresses including postcode/zip when part of the address.",
                AnonymiseEntityKind::Phone => "Phone, mobile, fax, or extension numbers written with any separators.",
                AnonymiseEntityKind::Email => "Email addresses or address-like handles containing domains.",
                AnonymiseEntityKind::Number => "Sensitive numbers not already covered above (account/case/reference numbers).",
                AnonymiseEntityKind::Organisation => "Company, employer, school, clinic, hospital, or institution names.",
                AnonymiseEntityKind::Identifier => "Explicit IDs/codes such as MRN, SSN, policy ID, student ID, license plate.",
            },
    {
        match self {
            AnonymiseEntityKind::Name => "Person names, initials, nicknames, and speaker names that identify a person. Ignore structural transcript labels/tokens (for example, SPEAKER_<number> tags and timing headers).",
            AnonymiseEntityKind::Location => "Any geographic/location reference: countries, regions, provinces/states, cities, villages, districts, streets, landmarks, venues, sites, departments, buildings.",
            AnonymiseEntityKind::Address => "Street or postal addresses including postcode/zip when part of the address.",
            AnonymiseEntityKind::Phone => "Phone, mobile, fax, or extension numbers written with any separators.",
            AnonymiseEntityKind::Email => "Email addresses or address-like handles containing domains.",
            AnonymiseEntityKind::Number => "Sensitive numbers not already covered above (account/case/reference numbers).",
            AnonymiseEntityKind::Organisation => "Company, employer, school, clinic, hospital, or institution names.",
            AnonymiseEntityKind::Identifier => "Explicit IDs/codes such as MRN, SSN, policy ID, student ID, license plate.",
        }
    }

    /// A fragment of the answer that the language model is shown.
    #[verifier::allow_in_spec]
    pub fn prompt_kv_example(self) -> &'static str
        returns
            match self {
                AnonymiseEntityKind::Name => "name: <person_name_from_transcript>;",
                AnonymiseEntityKind::Location => "location: <location_from_transcript>;",
                AnonymiseEntityKind::Address => "address: <address_from_transcript>;",
                AnonymiseEntityKind::Phone => "phone: <phone_number_from_transcript>;",
                AnonymiseEntityKind::Email => "email: <email_address_from_transcript>;",
                AnonymiseEntityKind::Number => "number: <sensitive_number_from_transcript>;",
                AnonymiseEntityKind::Organisation => "organisation: <organisation_from_transcript>;",
                AnonymiseEntityKind::Identifier => "identifier: <identifier_from_transcript>;",
            },
    {
        match self {
            AnonymiseEntityKind::Name => "name: <person_name_from_transcript>;",
            AnonymiseEntityKind::Location => "location: <location_from_transcript>;",
            AnonymiseEntityKind::Address => "address: <address_from_transcript>;",
            AnonymiseEntityKind::Phone => "phone: <phone_number_from_transcript>;",
            AnonymiseEntityKind::Email => "email: <email_address_from_transcript>;",
            AnonymiseEntityKind::Number => "number: <sensitive_number_from_transcript>;",
            AnonymiseEntityKind::Organisation => "organisation: <organisation_from_transcript>;",
            AnonymiseEntityKind::Identifier => "identifier: <identifier_from_transcript>;",
        }
    }

    /// What stands in the transcript where an entity of this kind was removed.
    #[verifier::allow_in_spec]
    pub fn placeholder(self) -> &'static str
        returns
            match self {
                AnonymiseEntityKind::Name => "[name omitted]",
                AnonymiseEntityKind::Location => "[location omitted]",
                AnonymiseEntityKind::Address => "[address omitted]",
                AnonymiseEntityKind::Phone => "[number omitted]",
                AnonymiseEntityKind::Email => "[email omitted]",
                AnonymiseEntityKind::Number => "[number omitted]",
                AnonymiseEntityKind::Organisation => "[organisation omitted]",
                AnonymiseEntityKind::Identifier => "[identifier omitted]",
            },
    {
        match self {
            AnonymiseEntityKind::Name => "[name omitted]",
            AnonymiseEntityKind::Location => "[location omitted]",
            AnonymiseEntityKind::Address => "[address omitted]",
            AnonymiseEntityKind::Phone => "[number omitted]",
            AnonymiseEntityKind::Email => "[email omitted]",
            AnonymiseEntityKind::Number => "[number omitted]",
            AnonymiseEntityKind::Organisation => "[organisation omitted]",
            AnonymiseEntityKind::Identifier => "[identifier omitted]",
        }
    }

    /// Whether an entity of this kind is also looked for in a spelling that differs from the one
    /// reported.
    #[verifier::allow_in_spec]
    pub fn supports_fuzzy(self) -> bool
        returns
            self is Name || self is Location || self is Address || self is Organisation,
    {
        matches!(
            self,
            AnonymiseEntityKind::Name
                | AnonymiseEntityKind::Location
                | AnonymiseEntityKind::Address
                | AnonymiseEntityKind::Organisation
        )
    }
}

/// The letters and digits of `raw`, in lower case.
pub open spec fn kind_token(raw: Seq<char>) -> Seq<char> {
    without(lowered(stripped(raw)), CharClass::NotAlnum)
}

/// The kind that a token names, if it names one.
pub open spec fn kind_named(token: Seq<char>) -> Option<AnonymiseEntityKind> {
    if token == "name"@ || token == "names"@ || token == "person"@ || token == "people"@ {
        Some(AnonymiseEntityKind::Name)
    } else if token == "location"@ || token == "locations"@ || token == "place"@ || token == "places"@ {
        Some(AnonymiseEntityKind::Location)
    } else if token == "address"@ || token == "addresses"@ {
        Some(AnonymiseEntityKind::Address)
    } else if token == "phone"@ || token == "phones"@ || token == "phonenumber"@ || token == "phonenumbers"@ || token == "telephone"@ || token == "telephonenumber"@ || token == "mobile"@ {
        Some(AnonymiseEntityKind::Phone)
    } else if token == "email"@ || token == "emails"@ || token == "emailaddress"@ || token == "emailaddresses"@ {
        Some(AnonymiseEntityKind::Email)
    } else if token == "number"@ || token == "numbers"@ {
        Some(AnonymiseEntityKind::Number)
    } else if token == "organisation"@ || token == "organisations"@ || token == "organization"@ || token == "organizations"@ || token == "company"@ || token == "companies"@ || token == "institution"@ || token == "institutions"@ {
        Some(AnonymiseEntityKind::Organisation)
    } else if token == "identifier"@ || token == "identifiers"@ || token == "id"@ || token == "ids"@ || token == "code"@ || token == "codes"@ {
        Some(AnonymiseEntityKind::Identifier)
    } else {
        None
    }
}

/// The letters and digits of `raw`, in lower case.
pub fn normalize_kind_token(raw: &str) -> (r: String)
    ensures
        r@ == kind_token(raw@),
{
    let lower: String = to_ascii_lowercase(trim(raw));
    remove_class(lower.as_str(), CharClass::NotAlnum)
}

/// The kind that `raw` names, whatever its case and its punctuation.
pub fn parse_anonymise_kind(raw: &str) -> (r: Option<AnonymiseEntityKind>)
    ensures
        r == kind_named(kind_token(raw@)),
{
    let token: String = normalize_kind_token(raw);
    let t: &str = token.as_str();
    if same_text(t, "name") || same_text(t, "names") || same_text(t, "person") || same_text(t, "people") {
        Some(AnonymiseEntityKind::Name)
    } else if same_text(t, "location") || same_text(t, "locations") || same_text(t, "place") || same_text(t, "places") {
        Some(AnonymiseEntityKind::Location)
    } else if same_text(t, "address") || same_text(t, "addresses") {
        Some(AnonymiseEntityKind::Address)
    } else if same_text(t, "phone") || same_text(t, "phones") || same_text(t, "phonenumber") || same_text(t, "phonenumbers") || same_text(t, "telephone") || same_text(t, "telephonenumber") || same_text(t, "mobile") {
        Some(AnonymiseEntityKind::Phone)
    } else if same_text(t, "email") || same_text(t, "emails") || same_text(t, "emailaddress") || same_text(t, "emailaddresses") {
        Some(AnonymiseEntityKind::Email)
    } else if same_text(t, "number") || same_text(t, "numbers") {
        Some(AnonymiseEntityKind::Number)
    } else if same_text(t, "organisation") || same_text(t, "organisations") || same_text(t, "organization") || same_text(t, "organizations") || same_text(t, "company") || same_text(t, "companies") || same_text(t, "institution") || same_text(t, "institutions") {
        Some(AnonymiseEntityKind::Organisation)
    } else if same_text(t, "identifier") || same_text(t, "identifiers") || same_text(t, "id") || same_text(t, "ids") || same_text(t, "code") || same_text(t, "codes") {
        Some(AnonymiseEntityKind::Identifier)
    } else {
        None
    }
}

/// A word of small letters is its own token.
proof fn lemma_word_is_token(word: Seq<char>)
    requires
        word.len() > 0,
        forall|i: int| 0 <= i < word.len() ==> 'a' <= #[trigger] word[i] <= 'z',
    ensures
        kind_token(word) == word,
{
    assert('a' <= word[0] <= 'z');
    assert('a' <= word[word.len() - 1] <= 'z');
    assert(stripped(word) == word);
    assert(lowered(word) =~= word);
    lemma_letters_stay(word);
}

/// Nothing is taken out of a word of small letters.
proof fn lemma_letters_stay(word: Seq<char>)
    requires
        forall|i: int| 0 <= i < word.len() ==> 'a' <= #[trigger] word[i] <= 'z',
    ensures
        without(word, CharClass::NotAlnum) == word,
    decreases word.len(),
{
    if word.len() > 0 {
        let rest = word.drop_last();
        assert forall|i: int| 0 <= i < rest.len() implies 'a' <= #[trigger] rest[i] <= 'z' by {
            assert(rest[i] == word[i]);
        }
        lemma_letters_stay(rest);
        assert('a' <= word[word.len() - 1] <= 'z');
        assert(rest.push(word.last()) =~= word);
    }
}

/// The key under which a kind is reported names that kind, and no other has the same key.
pub proof fn lemma_key_names_kind(kind: AnonymiseEntityKind, other: AnonymiseEntityKind)
    ensures
        kind_named(kind_token(kind.key()@)) == Some(kind),
        kind.key()@ == other.key()@ ==> kind == other,
{
    reveal_strlit("name");
    reveal_strlit("names");
    reveal_strlit("person");
    reveal_strlit("people");
    reveal_strlit("location");
    reveal_strlit("locations");
    reveal_strlit("place");
    reveal_strlit("places");
    reveal_strlit("address");
    reveal_strlit("addresses");
    reveal_strlit("phone");
    reveal_strlit("phones");
    reveal_strlit("phonenumber");
    reveal_strlit("phonenumbers");
    reveal_strlit("telephone");
    reveal_strlit("telephonenumber");
    reveal_strlit("mobile");
    reveal_strlit("email");
    reveal_strlit("emails");
    reveal_strlit("emailaddress");
    reveal_strlit("emailaddresses");
    reveal_strlit("number");
    reveal_strlit("numbers");
    reveal_strlit("organisation");
    reveal_strlit("organisations");
    reveal_strlit("organization");
    reveal_strlit("organizations");
    reveal_strlit("company");
    reveal_strlit("companies");
    reveal_strlit("institution");
    reveal_strlit("institutions");
    reveal_strlit("identifier");
    reveal_strlit("identifiers");
    reveal_strlit("id");
    reveal_strlit("ids");
    reveal_strlit("code");
    reveal_strlit("codes");
    lemma_word_is_token(kind.key()@);
    assert("phone"@[0] != "names"@[0]);
    assert("phone"@[1] != "place"@[1]);
}

/// What stands where an entity was removed names its kind, as it is reported; a phone number is called a
/// number.
pub proof fn lemma_placeholder_names_kind(kind: AnonymiseEntityKind)
    ensures
        kind != AnonymiseEntityKind::Phone ==> kind.placeholder()@ == "["@ + kind.key()@
            + " omitted]"@,
        kind == AnonymiseEntityKind::Phone ==> kind.placeholder()@
            == AnonymiseEntityKind::Number.placeholder()@,
{
    reveal_strlit("[");
    reveal_strlit(" omitted]");
    reveal_strlit("name");
    reveal_strlit("location");
    reveal_strlit("address");
    reveal_strlit("email");
    reveal_strlit("number");
    reveal_strlit("organisation");
    reveal_strlit("identifier");
    reveal_strlit("[name omitted]");
    reveal_strlit("[location omitted]");
    reveal_strlit("[address omitted]");
    reveal_strlit("[number omitted]");
    reveal_strlit("[email omitted]");
    reveal_strlit("[organisation omitted]");
    reveal_strlit("[identifier omitted]");
    assert("["@ + "name"@ + " omitted]"@ =~= "[name omitted]"@);
    assert("["@ + "location"@ + " omitted]"@ =~= "[location omitted]"@);
    assert("["@ + "address"@ + " omitted]"@ =~= "[address omitted]"@);
    assert("["@ + "number"@ + " omitted]"@ =~= "[number omitted]"@);
    assert("["@ + "email"@ + " omitted]"@ =~= "[email omitted]"@);
    assert("["@ + "organisation"@ + " omitted]"@ =~= "[organisation omitted]"@);
    assert("["@ + "identifier"@ + " omitted]"@ =~= "[identifier omitted]"@);
}

/// Which words name a kind besides its key: its plural, and other words for it.
pub proof fn lemma_words_for_kinds()
    ensures
        kind_named("names"@) == Some(AnonymiseEntityKind::Name),
        kind_named("person"@) == Some(AnonymiseEntityKind::Name),
        kind_named("people"@) == Some(AnonymiseEntityKind::Name),
        kind_named("locations"@) == Some(AnonymiseEntityKind::Location),
        kind_named("place"@) == Some(AnonymiseEntityKind::Location),
        kind_named("places"@) == Some(AnonymiseEntityKind::Location),
        kind_named("addresses"@) == Some(AnonymiseEntityKind::Address),
        kind_named("phones"@) == Some(AnonymiseEntityKind::Phone),
        kind_named("phonenumber"@) == Some(AnonymiseEntityKind::Phone),
        kind_named("phonenumbers"@) == Some(AnonymiseEntityKind::Phone),
        kind_named("telephone"@) == Some(AnonymiseEntityKind::Phone),
        kind_named("telephonenumber"@) == Some(AnonymiseEntityKind::Phone),
        kind_named("mobile"@) == Some(AnonymiseEntityKind::Phone),
        kind_named("emails"@) == Some(AnonymiseEntityKind::Email),
        kind_named("emailaddress"@) == Some(AnonymiseEntityKind::Email),
        kind_named("emailaddresses"@) == Some(AnonymiseEntityKind::Email),
        kind_named("numbers"@) == Some(AnonymiseEntityKind::Number),
        kind_named("organisations"@) == Some(AnonymiseEntityKind::Organisation),
        kind_named("organization"@) == Some(AnonymiseEntityKind::Organisation),
        kind_named("organizations"@) == Some(AnonymiseEntityKind::Organisation),
        kind_named("company"@) == Some(AnonymiseEntityKind::Organisation),
        kind_named("companies"@) == Some(AnonymiseEntityKind::Organisation),
        kind_named("institution"@) == Some(AnonymiseEntityKind::Organisation),
        kind_named("institutions"@) == Some(AnonymiseEntityKind::Organisation),
        kind_named("identifiers"@) == Some(AnonymiseEntityKind::Identifier),
        kind_named("id"@) == Some(AnonymiseEntityKind::Identifier),
        kind_named("ids"@) == Some(AnonymiseEntityKind::Identifier),
        kind_named("code"@) == Some(AnonymiseEntityKind::Identifier),
        kind_named("codes"@) == Some(AnonymiseEntityKind::Identifier),
        kind_named(Seq::empty()) is None,
{
    reveal_strlit("name");
    reveal_strlit("names");
    reveal_strlit("person");
    reveal_strlit("people");
    reveal_strlit("location");
    reveal_strlit("locations");
    reveal_strlit("place");
    reveal_strlit("places");
    reveal_strlit("address");
    reveal_strlit("addresses");
    reveal_strlit("phone");
    reveal_strlit("phones");
    reveal_strlit("phonenumber");
    reveal_strlit("phonenumbers");
    reveal_strlit("telephone");
    reveal_strlit("telephonenumber");
    reveal_strlit("mobile");
    reveal_strlit("email");
    reveal_strlit("emails");
    reveal_strlit("emailaddress");
    reveal_strlit("emailaddresses");
    reveal_strlit("number");
    reveal_strlit("numbers");
    reveal_strlit("organisation");
    reveal_strlit("organisations");
    reveal_strlit("organization");
    reveal_strlit("organizations");
    reveal_strlit("company");
    reveal_strlit("companies");
    reveal_strlit("institution");
    reveal_strlit("institutions");
    reveal_strlit("identifier");
    reveal_strlit("identifiers");
    reveal_strlit("id");
    reveal_strlit("ids");
    reveal_strlit("code");
    reveal_strlit("codes");
    assert("name"@.len() == 4);
    assert("names"@.len() == 5);
    assert("person"@.len() == 6);
    assert("people"@.len() == 6);
    assert("location"@.len() == 8);
    assert("locations"@.len() == 9);
    assert("place"@.len() == 5);
    assert("places"@.len() == 6);
    assert("address"@.len() == 7);
    assert("addresses"@.len() == 9);
    assert("phone"@.len() == 5);
    assert("phones"@.len() == 6);
    assert("phonenumber"@.len() == 11);
    assert("phonenumbers"@.len() == 12);
    assert("telephone"@.len() == 9);
    assert("telephonenumber"@.len() == 15);
    assert("mobile"@.len() == 6);
    assert("email"@.len() == 5);
    assert("emails"@.len() == 6);
    assert("emailaddress"@.len() == 12);
    assert("emailaddresses"@.len() == 14);
    assert("number"@.len() == 6);
    assert("numbers"@.len() == 7);
    assert("organisation"@.len() == 12);
    assert("organisations"@.len() == 13);
    assert("organization"@.len() == 12);
    assert("organizations"@.len() == 13);
    assert("company"@.len() == 7);
    assert("companies"@.len() == 9);
    assert("institution"@.len() == 11);
    assert("institutions"@.len() == 12);
    assert("identifier"@.len() == 10);
    assert("identifiers"@.len() == 11);
    assert("id"@.len() == 2);
    assert("ids"@.len() == 3);
    assert("code"@.len() == 4);
    assert("codes"@.len() == 5);
    assert("names"@[0] != "place"@[0]);
    assert("person"@[1] != "places"@[1]);
    assert("people"@[1] != "places"@[1]);
    assert("names"@[0] != "phone"@[0]);
    assert("person"@[1] != "phones"@[1]);
    assert("person"@[0] != "mobile"@[0]);
    assert("people"@[1] != "phones"@[1]);
    assert("people"@[0] != "mobile"@[0]);
    assert("names"@[0] != "email"@[0]);
    assert("person"@[0] != "emails"@[0]);
    assert("people"@[0] != "emails"@[0]);
    assert("person"@[0] != "number"@[0]);
    assert("people"@[0] != "number"@[0]);
    assert("name"@[0] != "code"@[0]);
    assert("names"@[0] != "codes"@[0]);
    assert("locations"@[0] != "addresses"@[0]);
    assert("locations"@[0] != "telephone"@[0]);
    assert("place"@[1] != "phone"@[1]);
    assert("places"@[1] != "phones"@[1]);
    assert("places"@[0] != "mobile"@[0]);
    assert("place"@[0] != "email"@[0]);
    assert("places"@[0] != "emails"@[0]);
    assert("places"@[0] != "number"@[0]);
    assert("locations"@[0] != "companies"@[0]);
    assert("place"@[0] != "codes"@[0]);
    assert("addresses"@[0] != "telephone"@[0]);
    assert("address"@[0] != "numbers"@[0]);
    assert("address"@[0] != "company"@[0]);
    assert("addresses"@[0] != "companies"@[0]);
    assert("phone"@[0] != "email"@[0]);
    assert("phones"@[0] != "emails"@[0]);
    assert("phonenumbers"@[0] != "emailaddress"@[0]);
    assert("mobile"@[0] != "emails"@[0]);
    assert("phones"@[0] != "number"@[0]);
    assert("mobile"@[0] != "number"@[0]);
    assert("phonenumber"@[0] != "institution"@[0]);
    assert("phonenumbers"@[0] != "organisation"@[0]);
    assert("phonenumbers"@[0] != "organization"@[0]);
    assert("phonenumbers"@[0] != "institutions"@[0]);
    assert("telephone"@[0] != "companies"@[0]);
    assert("phone"@[0] != "codes"@[0]);
    assert("phonenumber"@[0] != "identifiers"@[0]);
    assert("emails"@[0] != "number"@[0]);
    assert("emailaddress"@[0] != "organisation"@[0]);
    assert("emailaddress"@[0] != "organization"@[0]);
    assert("emailaddress"@[0] != "institutions"@[0]);
    assert("email"@[0] != "codes"@[0]);
    assert("numbers"@[0] != "company"@[0]);
    assert("institution"@[1] != "identifiers"@[1]);
}

} // verus!
