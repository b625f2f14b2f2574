//! The pages of the window and the legal documents.
use crate::text::{split_lines, views};
use vstd::prelude::*;
use vstd::string::*;

verus! {

/// The pages of the window.
#[derive(Debug, Clone, Copy, PartialEq, Eq, Structural)]
pub enum AppPage {
    Home,
    Transcribe,
    Review,
    Live,
    Chat,
    Activity,
    Settings,
}

impl AppPage {
    /// The name of a page.
    #[verifier::allow_in_spec]
    pub fn label(self) -> &'static str
        returns
            (match self {
                AppPage::Home => "Home",
                AppPage::Transcribe => "Transcribe",
                AppPage::Review => "Review",
                AppPage::Live => "Live",
                AppPage::Chat => "Chat",
                AppPage::Activity => "Activity",
                AppPage::Settings => "Settings",
            }),
    {
        match self {
            AppPage::Home => "Home",
            AppPage::Transcribe => "Transcribe",
            AppPage::Review => "Review",
            AppPage::Live => "Live",
            AppPage::Chat => "Chat",
            AppPage::Activity => "Activity",
            AppPage::Settings => "Settings",
        }
    }

    /// What a page is for.
    #[verifier::allow_in_spec]
    pub fn description(self) -> &'static str
        returns
            (match self {
                AppPage::Home => "Readiness, shortcuts, and current status.",
                AppPage::Transcribe => "Add media files and run local transcription jobs.",
                AppPage::Review => "Open, edit, anonymise, rename speakers, and play transcripts.",
                AppPage::Live => "Record microphone audio with live transcription and diarization.",
                AppPage::Chat => "Ask questions about a selected transcript.",
                AppPage::Activity => "Jobs, downloads, status messages, and diagnostics log.",
                AppPage::Settings =>
                "Runtime, transcription, chat, editing, appearance, and legal docs.",
            }),
    {
        match self {
            AppPage::Home => "Readiness, shortcuts, and current status.",
            AppPage::Transcribe => "Add media files and run local transcription jobs.",
            AppPage::Review => "Open, edit, anonymise, rename speakers, and play transcripts.",
            AppPage::Live => "Record microphone audio with live transcription and diarization.",
            AppPage::Chat => "Ask questions about a selected transcript.",
            AppPage::Activity => "Jobs, downloads, status messages, and diagnostics log.",
            AppPage::Settings =>
            "Runtime, transcription, chat, editing, appearance, and legal docs.",
        }
    }

    /// The tab that is shown once a page was chosen, given the tab before.
    #[verifier::allow_in_spec]
    pub fn tab(self, before: usize) -> usize
        returns
            (match self {
                AppPage::Transcribe | AppPage::Review => 0usize,
                AppPage::Live => 2usize,
                AppPage::Chat => 1usize,
                _ => before,
            }),
    {
        match self {
            AppPage::Transcribe | AppPage::Review => 0,
            AppPage::Live => 2,
            AppPage::Chat => 1,
            _ => before,
        }
    }
}

/// The pages in the order in which they are offered.
pub open spec fn page_order() -> Seq<AppPage> {
    seq![
        AppPage::Home,
        AppPage::Transcribe,
        AppPage::Review,
        AppPage::Live,
        AppPage::Chat,
        AppPage::Activity,
        AppPage::Settings,
    ]
}

/// The pages in the order in which they are offered.
pub fn app_pages() -> (r: Vec<AppPage>)
    ensures
        r@ == page_order(),
{
    let r: Vec<AppPage> = vec![
        AppPage::Home,
        AppPage::Transcribe,
        AppPage::Review,
        AppPage::Live,
        AppPage::Chat,
        AppPage::Activity,
        AppPage::Settings,
    ];
    assert(r@ =~= page_order());
    r
}

/// The legal documents.
#[derive(Debug, Clone, Copy, PartialEq, Eq, Structural)]
pub enum LegalDocKind {
    ThirdPartyNotices,
    ThirdPartyLicenses,
    EngineThirdPartyLicenses,
}

/// The texts of the legal documents.
pub struct LegalTexts {
    pub notices: String,
    pub licenses: String,
    pub engine_licenses: String,
}

impl LegalDocKind {
    /// What a document is called where it is chosen.
    #[verifier::allow_in_spec]
    pub fn nav_label(self) -> &'static str
        returns
            (match self {
                LegalDocKind::ThirdPartyNotices => "Notices",
                LegalDocKind::ThirdPartyLicenses => "Third-party licenses",
                LegalDocKind::EngineThirdPartyLicenses => "Engine licenses",
            }),
    {
        match self {
            LegalDocKind::ThirdPartyNotices => "Notices",
            LegalDocKind::ThirdPartyLicenses => "Third-party licenses",
            LegalDocKind::EngineThirdPartyLicenses => "Engine licenses",
        }
    }

    /// What a document is called in the title of its window.
    #[verifier::allow_in_spec]
    pub fn window_title(self) -> &'static str
        returns
            (match self {
                LegalDocKind::ThirdPartyNotices => "Notices",
                LegalDocKind::ThirdPartyLicenses => "Third-Party Licenses",
                LegalDocKind::EngineThirdPartyLicenses => "Engine Licenses",
            }),
    {
        match self {
            LegalDocKind::ThirdPartyNotices => "Notices",
            LegalDocKind::ThirdPartyLicenses => "Third-Party Licenses",
            LegalDocKind::EngineThirdPartyLicenses => "Engine Licenses",
        }
    }

    /// The text of a document.
    pub open spec fn text_in(self, texts: LegalTexts) -> Seq<char> {
        match self {
            LegalDocKind::ThirdPartyNotices => texts.notices@,
            LegalDocKind::ThirdPartyLicenses => texts.licenses@,
            LegalDocKind::EngineThirdPartyLicenses => texts.engine_licenses@,
        }
    }

    /// The text of a document.
    pub fn bundled_markdown<'a>(self, texts: &'a LegalTexts) -> (r: &'a str)
        ensures
            r@ == self.text_in(*texts),
    {
        match self {
            LegalDocKind::ThirdPartyNotices => texts.notices.as_str(),
            LegalDocKind::ThirdPartyLicenses => texts.licenses.as_str(),
            LegalDocKind::EngineThirdPartyLicenses => texts.engine_licenses.as_str(),
        }
    }

    /// The lines of a document.
    pub fn document_lines(self, texts: &LegalTexts) -> (r: Vec<String>)
        ensures
            views(r@) == crate::text::lines(self.text_in(*texts)),
    {
        split_lines(self.bundled_markdown(texts))
    }
}

/// The legal documents in the order in which they are offered.
pub open spec fn legal_doc_order() -> Seq<LegalDocKind> {
    seq![
        LegalDocKind::ThirdPartyNotices,
        LegalDocKind::ThirdPartyLicenses,
        LegalDocKind::EngineThirdPartyLicenses,
    ]
}

/// The legal documents in the order in which they are offered.
pub fn legal_docs() -> (r: Vec<LegalDocKind>)
    ensures
        r@ == legal_doc_order(),
{
    let r: Vec<LegalDocKind> = vec![
        LegalDocKind::ThirdPartyNotices,
        LegalDocKind::ThirdPartyLicenses,
        LegalDocKind::EngineThirdPartyLicenses,
    ];
    assert(r@ =~= legal_doc_order());
    r
}

} // verus!
