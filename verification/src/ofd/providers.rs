//! The fiscal-data operators (and other sources) that documents are fetched from.
use vstd::prelude::*;

verus! {

/// Which source a provider is.
#[derive(Clone, Copy, Debug, PartialEq, Eq, Structural)]
pub enum ProviderKind {
    Private1,
    IrkktMobile,
    Astral,
    Icom24,
    OfdRu,
    Taxcom,
    OneOfd,
    Eofd,
    Beeline,
}

/// The identifier of each source.
pub open spec fn kind_id(k: ProviderKind) -> Seq<char> {
    match k {
        ProviderKind::Private1 => "private1"@,
        ProviderKind::IrkktMobile => "irkkt-mobile"@,
        ProviderKind::Astral => "astral"@,
        ProviderKind::Icom24 => "icom24"@,
        ProviderKind::OfdRu => "ofd-ru"@,
        ProviderKind::Taxcom => "taxcom"@,
        ProviderKind::OneOfd => "1ofd"@,
        ProviderKind::Eofd => "eofd"@,
        ProviderKind::Beeline => "beeline"@,
    }
}

/// The file extension of the raw data each source gives.
pub open spec fn kind_ext(k: ProviderKind) -> Seq<char> {
    match k {
        ProviderKind::Taxcom => "html"@,
        _ => "json"@,
    }
}

impl ProviderKind {
    /// The identifier, as stored in records and used in QR codes (`ofd=...`).
    pub fn id(&self) -> (r: &'static str)
        ensures
            r@ == kind_id(*self),
    {
        match self {
            ProviderKind::Private1 => "private1",
            ProviderKind::IrkktMobile => "irkkt-mobile",
            ProviderKind::Astral => "astral",
            ProviderKind::Icom24 => "icom24",
            ProviderKind::OfdRu => "ofd-ru",
            ProviderKind::Taxcom => "taxcom",
            ProviderKind::OneOfd => "1ofd",
            ProviderKind::Eofd => "eofd",
            ProviderKind::Beeline => "beeline",
        }
    }

    /// The legal name of the operator (empty for sources that are not operators).
    pub fn name(&self) -> (r: &'static str)
        ensures
            (r@.len() == 0) == (*self == ProviderKind::Private1 || *self == ProviderKind::IrkktMobile),
    {
        let r = match self {
            ProviderKind::Private1 => "",
            ProviderKind::IrkktMobile => "",
            ProviderKind::Astral => "ЗАО \"КАЛУГА АСТРАЛ\"",
            ProviderKind::Icom24 => "ООО \"Инфоком\"",
            ProviderKind::OfdRu => "ООО \"ПЕТЕР-СЕРВИС Спецтехнологии\"",
            ProviderKind::Taxcom => "ООО \"Такском\"",
            ProviderKind::OneOfd => "АО \"Энергетические системы и коммуникации\"",
            ProviderKind::Eofd => "ООО \"ГРУППА ЭЛЕМЕНТ\"",
            ProviderKind::Beeline => "ПАО \"Вымпел-Коммуникации\"",
        };
        proof {
            reveal_strlit("");
            reveal_strlit("ЗАО \"КАЛУГА АСТРАЛ\"");
            reveal_strlit("ООО \"Инфоком\"");
            reveal_strlit("ООО \"ПЕТЕР-СЕРВИС Спецтехнологии\"");
            reveal_strlit("ООО \"Такском\"");
            reveal_strlit("АО \"Энергетические системы и коммуникации\"");
            reveal_strlit("ООО \"ГРУППА ЭЛЕМЕНТ\"");
            reveal_strlit("ПАО \"Вымпел-Коммуникации\"");
        }
        r
    }

    /// The operator's web site.
    pub fn url(&self) -> (r: &'static str)
        ensures
            (r@.len() == 0) == (*self == ProviderKind::Private1 || *self == ProviderKind::IrkktMobile),
    {
        let r = match self {
            ProviderKind::Private1 => "",
            ProviderKind::IrkktMobile => "",
            ProviderKind::Astral => "ofd.astralnalog.ru",
            ProviderKind::Icom24 => "check-bus.icom24.ru",
            ProviderKind::OfdRu => "www.ofd.ru",
            ProviderKind::Taxcom => "www.taxcom.ru",
            ProviderKind::OneOfd => "1-ofd.ru",
            ProviderKind::Eofd => "e-ofd.ru",
            ProviderKind::Beeline => "ofd.beeline.ru",
        };
        proof {
            reveal_strlit("");
            reveal_strlit("ofd.astralnalog.ru");
            reveal_strlit("check-bus.icom24.ru");
            reveal_strlit("www.ofd.ru");
            reveal_strlit("www.taxcom.ru");
            reveal_strlit("1-ofd.ru");
            reveal_strlit("e-ofd.ru");
            reveal_strlit("ofd.beeline.ru");
        }
        r
    }

    /// The operator's taxpayer number (ИНН).
    pub fn inn(&self) -> (r: &'static str)
        ensures
            (r@.len() == 0) == (*self == ProviderKind::Private1 || *self == ProviderKind::IrkktMobile),
    {
        let r = match self {
            ProviderKind::Private1 => "",
            ProviderKind::IrkktMobile => "",
            ProviderKind::Astral => "4029017981",
            ProviderKind::Icom24 => "2452033608",
            ProviderKind::OfdRu => "7841465198",
            ProviderKind::Taxcom => "7704211201",
            ProviderKind::OneOfd => "7709364346",
            ProviderKind::Eofd => "7729642175",
            ProviderKind::Beeline => "7713076301",
        };
        proof {
            reveal_strlit("");
            reveal_strlit("4029017981");
            reveal_strlit("2452033608");
            reveal_strlit("7841465198");
            reveal_strlit("7704211201");
            reveal_strlit("7709364346");
            reveal_strlit("7729642175");
            reveal_strlit("7713076301");
        }
        r
    }

    /// The extension of the files the raw data is kept in.
    pub fn ext(&self) -> (r: &'static str)
        ensures
            r@ == kind_ext(*self),
    {
        match self {
            ProviderKind::Taxcom => "html",
            _ => "json",
        }
    }
}

/// ЗАО «Калуга Астрал».
pub struct Astral;

/// ПАО «Вымпел-Коммуникации».
pub struct Beeline;

/// ООО «Группа Элемент».
pub struct Eofd;

/// ООО «Инфоком»: not an operator, it gives the address of a document at Такском.
pub struct Icom24;

/// ООО «Петер-Сервис Спецтехнологии».
pub struct OfdRu;

/// АО «Энергетические системы и коммуникации».
pub struct OneOfd;

/// ООО «Такском».
pub struct Taxcom;

/// A private source of documents at a configured address.
pub struct Private1 {
    pub endpoint: String,
}

/// The tax service's mobile interface.
pub struct IrkktMobile {
    pub client_secret: String,
    pub device_id: String,
    pub api_base: String,
}

impl Private1 {
    /// A source asked at `endpoint`.
    pub fn new(endpoint: &str) -> (r: Private1)
        ensures
            r.endpoint@ == endpoint@,
    {
        Private1 { endpoint: endpoint.to_owned() }
    }
}

impl IrkktMobile {
    /// The tax service's interface at `api_base`, as the given client and device.
    pub fn new(client_secret: &str, device_id: &str, api_base: &str) -> (r: IrkktMobile)
        ensures
            r.client_secret@ == client_secret@,
            r.device_id@ == device_id@,
            r.api_base@ == api_base@,
    {
        IrkktMobile {
            client_secret: client_secret.to_owned(),
            device_id: device_id.to_owned(),
            api_base: api_base.to_owned(),
        }
    }
}

} // verus!
