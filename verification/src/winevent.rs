//! Field mapping for Windows event records: one strategy per provider, each
//! copying a fixed set of named fields of the decoded record into the
//! canonical schema, with empty strings for everything the record lacks.
use vstd::prelude::*;
use crate::model::{CanonicalEvent, EventV};
use crate::text;

verus! {

broadcast use text::lemma_chars_deep_view;

/// Ghost image of one named value of a record's event-data section.
pub ghost struct DataFieldV {
    pub name: Seq<char>,
    pub body: Option<Seq<char>>,
}

/// One named value of a record's event-data section.
pub struct DataField {
    pub name: String,
    pub body: Option<String>,
}

impl View for DataField {
    type V = DataFieldV;

    open spec fn view(&self) -> DataFieldV {
        DataFieldV {
            name: self.name@,
            body: match self.body {
                Some(ref s) => Some(s@),
                None => None,
            },
        }
    }
}

/// Ghost image of one decoded Windows event record.
pub ghost struct WinRecordV {
    pub system_time: Option<Seq<char>>,
    pub computer: Option<Seq<char>>,
    pub event_id: Option<Seq<char>>,
    pub provider: Option<Seq<char>>,
    pub security_user_id: Option<Seq<char>>,
    pub data_fields: Seq<DataFieldV>,
    pub user_data_user_name: Option<Seq<char>>,
    pub user_data_client_name: Option<Seq<char>>,
    pub event_xml_user: Option<Seq<char>>,
    pub event_xml_address: Option<Seq<char>>,
}

/// One decoded Windows event record, reduced to the plain values the
/// mapping strategies read: the system section, the named event-data
/// values, and the user-data values the terminal-services and file-sharing
/// providers use.
pub struct WinRecord {
    pub system_time: Option<String>,
    pub computer: Option<String>,
    pub event_id: Option<String>,
    pub provider: Option<String>,
    pub security_user_id: Option<String>,
    pub data_fields: Vec<DataField>,
    pub user_data_user_name: Option<String>,
    pub user_data_client_name: Option<String>,
    pub event_xml_user: Option<String>,
    pub event_xml_address: Option<String>,
}

/// The view of an optional string.
pub open spec fn spec_opt_view(o: Option<String>) -> Option<Seq<char>> {
    match o {
        Some(s) => Some(s@),
        None => None,
    }
}

impl View for WinRecord {
    type V = WinRecordV;

    open spec fn view(&self) -> WinRecordV {
        WinRecordV {
            system_time: spec_opt_view(self.system_time),
            computer: spec_opt_view(self.computer),
            event_id: spec_opt_view(self.event_id),
            provider: spec_opt_view(self.provider),
            security_user_id: spec_opt_view(self.security_user_id),
            data_fields: Seq::new(self.data_fields@.len(), |i: int| self.data_fields@[i]@),
            user_data_user_name: spec_opt_view(self.user_data_user_name),
            user_data_client_name: spec_opt_view(self.user_data_client_name),
            event_xml_user: spec_opt_view(self.event_xml_user),
            event_xml_address: spec_opt_view(self.event_xml_address),
        }
    }
}

/// The value a named field contributes: its body, or the placeholder the
/// decoder substitutes for a present-but-empty value.
pub open spec fn spec_body_or_default(b: Option<Seq<char>>) -> Seq<char> {
    match b {
        Some(s) => s,
        None => "default_value"@,
    }
}

/// The value of the last occurrence of a named field; empty when the name
/// never occurs.
pub open spec fn spec_field_of(datas: Seq<DataFieldV>, name: Seq<char>) -> Seq<char>
    decreases datas.len(),
{
    if datas.len() == 0 {
        Seq::empty()
    } else if datas.last().name == name {
        spec_body_or_default(datas.last().body)
    } else {
        spec_field_of(datas.drop_last(), name)
    }
}

/// Looks up the value of a named field.
#[verifier::loop_isolation(false)]
pub fn field_of(datas: &Vec<DataField>, name: &str) -> (r: String)
    ensures
        r@ == spec_field_of(Seq::new(datas@.len(), |i: int| datas@[i]@), name@),
{
    let ghost dv = Seq::new(datas@.len(), |i: int| datas@[i]@);
    let nm = String::from_str(name);
    let mut cur = String::new();
    let mut i: usize = 0;
    while i < datas.len()
        invariant
            i <= datas@.len(),
            nm@ == name@,
            cur@ == spec_field_of(dv.take(i as int), name@),
        decreases datas@.len() - i,
    {
        proof {
            assert(dv.take(i + 1).drop_last() =~= dv.take(i as int));
            assert(dv.take(i + 1).last() == dv[i as int]);
        }
        if datas[i].name == nm {
            match &datas[i].body {
                Some(b) => {
                    cur = b.clone();
                },
                None => {
                    cur = String::from_str("default_value");
                },
            }
        }
        i = i + 1;
    }
    proof {
        assert(dv.take(datas@.len() as int) =~= dv);
    }
    cur
}

/// String equality against a literal.
pub fn str_lit_eq(s: &String, lit: &str) -> (r: bool)
    ensures
        r == (s@ == lit@),
{
    *s == String::from_str(lit)
}

/// The event kinds of the account-logon audit log that matter for lateral
/// movement.
pub open spec fn spec_security_allowed(id: Seq<char>) -> bool {
    ||| id == "4624"@
    ||| id == "4625"@
    ||| id == "4634"@
    ||| id == "4647"@
    ||| id == "4648"@
    ||| id == "4768"@
    ||| id == "4769"@
    ||| id == "4770"@
    ||| id == "4771"@
    ||| id == "4776"@
    ||| id == "4778"@
    ||| id == "4779"@
}

/// Decides membership in the account-logon allow-list.
pub fn security_allowed(id: &String) -> (r: bool)
    ensures
        r == spec_security_allowed(id@),
{
    str_lit_eq(id, "4624") || str_lit_eq(id, "4625") || str_lit_eq(id, "4634") || str_lit_eq(
        id,
        "4647",
    ) || str_lit_eq(id, "4648") || str_lit_eq(id, "4768") || str_lit_eq(id, "4769") || str_lit_eq(
        id,
        "4770",
    ) || str_lit_eq(id, "4771") || str_lit_eq(id, "4776") || str_lit_eq(id, "4778") || str_lit_eq(
        id,
        "4779",
    )
}

/// The record is usable at all: it names an event kind, a time and the
/// recording computer.
pub open spec fn spec_has_core(rec: WinRecordV) -> bool {
    &&& rec.event_id is Some
    &&& rec.system_time is Some
    &&& rec.computer is Some
}

/// The field names the account-logon strategy copies.
pub open spec fn spec_security_event(rec: WinRecordV, provenance: Seq<char>) -> Option<EventV> {
    if spec_has_core(rec) && spec_security_allowed(rec.event_id->0) {
        Some(
            EventV {
                time: rec.system_time->0,
                dst_host: rec.computer->0,
                event_kind: rec.event_id->0,
                subject_user: spec_field_of(rec.data_fields, "SubjectUserName"@),
                subject_domain: spec_field_of(rec.data_fields, "SubjectDomainName"@),
                target_user: spec_field_of(rec.data_fields, "TargetUserName"@),
                target_domain: spec_field_of(rec.data_fields, "TargetDomainName"@),
                logon_kind: spec_field_of(rec.data_fields, "LogonType"@),
                src_host: spec_field_of(rec.data_fields, "WorkstationName"@),
                src_ip: spec_field_of(rec.data_fields, "IpAddress"@),
                process: spec_field_of(rec.data_fields, "ProcessName"@),
                provenance: provenance,
            },
        )
    } else {
        None
    }
}

/// Maps one account-logon audit record; `None` exactly on records outside
/// the allow-list or missing the core fields.
pub fn security_event(rec: &WinRecord, provenance: &str) -> (r: Option<CanonicalEvent>)
    ensures
        match r {
            Some(ev) => spec_security_event(rec@, provenance@) == Some(ev@),
            None => spec_security_event(rec@, provenance@) is None,
        },
{
    let id = match &rec.event_id {
        Some(x) => x,
        None => {
            return None;
        },
    };
    if !security_allowed(id) {
        return None;
    }
    let time = match &rec.system_time {
        Some(x) => x,
        None => {
            return None;
        },
    };
    let computer = match &rec.computer {
        Some(x) => x,
        None => {
            return None;
        },
    };
    Some(
        CanonicalEvent {
            time: time.clone(),
            dst_host: computer.clone(),
            event_kind: id.clone(),
            subject_user: field_of(&rec.data_fields, "SubjectUserName"),
            subject_domain: field_of(&rec.data_fields, "SubjectDomainName"),
            target_user: field_of(&rec.data_fields, "TargetUserName"),
            target_domain: field_of(&rec.data_fields, "TargetDomainName"),
            logon_kind: field_of(&rec.data_fields, "LogonType"),
            src_host: field_of(&rec.data_fields, "WorkstationName"),
            src_ip: field_of(&rec.data_fields, "IpAddress"),
            process: field_of(&rec.data_fields, "ProcessName"),
            provenance: String::from_str(provenance),
        },
    )
}

/// The value of an optional field, empty when absent.
pub open spec fn spec_opt_or_empty(o: Option<Seq<char>>) -> Seq<char> {
    match o {
        Some(s) => s,
        None => Seq::empty(),
    }
}

/// Clones an optional field, empty when absent.
pub fn opt_or_empty(o: &Option<String>) -> (r: String)
    ensures
        r@ == spec_opt_or_empty(spec_opt_view(*o)),
{
    match o {
        Some(s) => s.clone(),
        None => String::new(),
    }
}

/// The file-server session strategy: the recording computer is the
/// destination, the client name stands as both source fields, and the
/// logon kind is the network constant, which this source never encodes.
pub open spec fn spec_smb_server_event(rec: WinRecordV, provenance: Seq<char>) -> Option<EventV> {
    if spec_has_core(rec) && (rec.event_id->0 == "1009"@ || rec.event_id->0 == "551"@) {
        Some(
            EventV {
                time: rec.system_time->0,
                dst_host: rec.computer->0,
                event_kind: rec.event_id->0,
                subject_user: spec_opt_or_empty(rec.security_user_id),
                subject_domain: Seq::empty(),
                target_user: spec_opt_or_empty(rec.user_data_user_name),
                target_domain: Seq::empty(),
                logon_kind: "3"@,
                src_host: spec_opt_or_empty(rec.user_data_client_name),
                src_ip: spec_opt_or_empty(rec.user_data_client_name),
                process: Seq::empty(),
                provenance: provenance,
            },
        )
    } else {
        None
    }
}

/// Maps one file-server session record.
pub fn smb_server_event(rec: &WinRecord, provenance: &str) -> (r: Option<CanonicalEvent>)
    ensures
        match r {
            Some(ev) => spec_smb_server_event(rec@, provenance@) == Some(ev@),
            None => spec_smb_server_event(rec@, provenance@) is None,
        },
{
    let id = match &rec.event_id {
        Some(x) => x,
        None => {
            return None;
        },
    };
    if !(str_lit_eq(id, "1009") || str_lit_eq(id, "551")) {
        return None;
    }
    let time = match &rec.system_time {
        Some(x) => x,
        None => {
            return None;
        },
    };
    let computer = match &rec.computer {
        Some(x) => x,
        None => {
            return None;
        },
    };
    Some(
        CanonicalEvent {
            time: time.clone(),
            dst_host: computer.clone(),
            event_kind: id.clone(),
            subject_user: opt_or_empty(&rec.security_user_id),
            subject_domain: String::new(),
            target_user: opt_or_empty(&rec.user_data_user_name),
            target_domain: String::new(),
            logon_kind: String::from_str("3"),
            src_host: opt_or_empty(&rec.user_data_client_name),
            src_ip: opt_or_empty(&rec.user_data_client_name),
            process: String::new(),
            provenance: String::from_str(provenance),
        },
    )
}

/// The file-client strategies: the named server is the destination and the
/// recording computer is the source.
pub open spec fn spec_smb_client_allowed(id: Seq<char>, connectivity: bool) -> bool {
    if connectivity {
        ||| id == "30803"@
        ||| id == "30804"@
        ||| id == "30805"@
        ||| id == "30806"@
        ||| id == "30807"@
        ||| id == "30808"@
    } else {
        id == "31001"@
    }
}

/// The file-client mapping shared by the security and connectivity
/// channels.
pub open spec fn spec_smb_client_event(
    rec: WinRecordV,
    provenance: Seq<char>,
    connectivity: bool,
) -> Option<EventV> {
    if spec_has_core(rec) && spec_smb_client_allowed(rec.event_id->0, connectivity) {
        Some(
            EventV {
                time: rec.system_time->0,
                dst_host: spec_field_of(rec.data_fields, "ServerName"@),
                event_kind: rec.event_id->0,
                subject_user: Seq::empty(),
                subject_domain: Seq::empty(),
                target_user: spec_field_of(rec.data_fields, "UserName"@),
                target_domain: Seq::empty(),
                logon_kind: "3"@,
                src_host: rec.computer->0,
                src_ip: rec.computer->0,
                process: Seq::empty(),
                provenance: provenance,
            },
        )
    } else {
        None
    }
}

/// Maps one file-client record from either channel.
pub fn smb_client_event(rec: &WinRecord, provenance: &str, connectivity: bool) -> (r: Option<
    CanonicalEvent,
>)
    ensures
        match r {
            Some(ev) => spec_smb_client_event(rec@, provenance@, connectivity) == Some(ev@),
            None => spec_smb_client_event(rec@, provenance@, connectivity) is None,
        },
{
    let id = match &rec.event_id {
        Some(x) => x,
        None => {
            return None;
        },
    };
    let allowed = if connectivity {
        str_lit_eq(id, "30803") || str_lit_eq(id, "30804") || str_lit_eq(id, "30805")
            || str_lit_eq(id, "30806") || str_lit_eq(id, "30807") || str_lit_eq(id, "30808")
    } else {
        str_lit_eq(id, "31001")
    };
    if !allowed {
        return None;
    }
    let time = match &rec.system_time {
        Some(x) => x,
        None => {
            return None;
        },
    };
    let computer = match &rec.computer {
        Some(x) => x,
        None => {
            return None;
        },
    };
    Some(
        CanonicalEvent {
            time: time.clone(),
            dst_host: field_of(&rec.data_fields, "ServerName"),
            event_kind: id.clone(),
            subject_user: String::new(),
            subject_domain: String::new(),
            target_user: field_of(&rec.data_fields, "UserName"),
            target_domain: String::new(),
            logon_kind: String::from_str("3"),
            src_host: computer.clone(),
            src_ip: computer.clone(),
            process: String::new(),
            provenance: String::from_str(provenance),
        },
    )
}

/// The remote-desktop client strategy: the `Value` field names the server
/// connected to, and the recording computer is the source.
pub open spec fn spec_rdp_client_event(rec: WinRecordV, provenance: Seq<char>) -> Option<EventV> {
    if spec_has_core(rec) && (rec.event_id->0 == "1024"@ || rec.event_id->0 == "1102"@) {
        Some(
            EventV {
                time: rec.system_time->0,
                dst_host: spec_field_of(rec.data_fields, "Value"@),
                event_kind: rec.event_id->0,
                subject_user: Seq::empty(),
                subject_domain: Seq::empty(),
                target_user: spec_opt_or_empty(rec.security_user_id),
                target_domain: Seq::empty(),
                logon_kind: "10"@,
                src_host: rec.computer->0,
                src_ip: rec.computer->0,
                process: Seq::empty(),
                provenance: provenance,
            },
        )
    } else {
        None
    }
}

/// Maps one remote-desktop client record.
pub fn rdp_client_event(rec: &WinRecord, provenance: &str) -> (r: Option<CanonicalEvent>)
    ensures
        match r {
            Some(ev) => spec_rdp_client_event(rec@, provenance@) == Some(ev@),
            None => spec_rdp_client_event(rec@, provenance@) is None,
        },
{
    let id = match &rec.event_id {
        Some(x) => x,
        None => {
            return None;
        },
    };
    if !(str_lit_eq(id, "1024") || str_lit_eq(id, "1102")) {
        return None;
    }
    let time = match &rec.system_time {
        Some(x) => x,
        None => {
            return None;
        },
    };
    let computer = match &rec.computer {
        Some(x) => x,
        None => {
            return None;
        },
    };
    Some(
        CanonicalEvent {
            time: time.clone(),
            dst_host: field_of(&rec.data_fields, "Value"),
            event_kind: id.clone(),
            subject_user: String::new(),
            subject_domain: String::new(),
            target_user: opt_or_empty(&rec.security_user_id),
            target_domain: String::new(),
            logon_kind: String::from_str("10"),
            src_host: computer.clone(),
            src_ip: computer.clone(),
            process: String::new(),
            provenance: String::from_str(provenance),
        },
    )
}

/// The connection-manager strategy: the record is kept only when its
/// user-data section is present, and the client name stands as both source
/// fields.
pub open spec fn spec_rdp_connmanager_event(rec: WinRecordV, provenance: Seq<char>) -> Option<
    EventV,
> {
    if spec_has_core(rec) && rec.event_id->0 == "1149"@ && rec.system_time->0 != Seq::<
        char,
    >::empty() && rec.computer->0 != Seq::<char>::empty() && !(rec.user_data_user_name is None
        && rec.user_data_client_name is None) {
        Some(
            EventV {
                time: rec.system_time->0,
                dst_host: rec.computer->0,
                event_kind: rec.event_id->0,
                subject_user: Seq::empty(),
                subject_domain: Seq::empty(),
                target_user: spec_opt_or_empty(rec.user_data_user_name),
                target_domain: Seq::empty(),
                logon_kind: "10"@,
                src_host: spec_opt_or_empty(rec.user_data_client_name),
                src_ip: spec_opt_or_empty(rec.user_data_client_name),
                process: Seq::empty(),
                provenance: provenance,
            },
        )
    } else {
        None
    }
}

/// Maps one remote-connection-manager record.
pub fn rdp_connmanager_event(rec: &WinRecord, provenance: &str) -> (r: Option<CanonicalEvent>)
    ensures
        match r {
            Some(ev) => spec_rdp_connmanager_event(rec@, provenance@) == Some(ev@),
            None => spec_rdp_connmanager_event(rec@, provenance@) is None,
        },
{
    let id = match &rec.event_id {
        Some(x) => x,
        None => {
            return None;
        },
    };
    if !str_lit_eq(id, "1149") {
        return None;
    }
    let time = match &rec.system_time {
        Some(x) => x,
        None => {
            return None;
        },
    };
    let computer = match &rec.computer {
        Some(x) => x,
        None => {
            return None;
        },
    };
    if time.as_str().is_empty() || computer.as_str().is_empty() {
        proof {
            if time@.len() == 0 {
                assert(time@ =~= Seq::<char>::empty());
            }
            if computer@.len() == 0 {
                assert(computer@ =~= Seq::<char>::empty());
            }
        }
        return None;
    }
    if rec.user_data_user_name.is_none() && rec.user_data_client_name.is_none() {
        return None;
    }
    Some(
        CanonicalEvent {
            time: time.clone(),
            dst_host: computer.clone(),
            event_kind: id.clone(),
            subject_user: String::new(),
            subject_domain: String::new(),
            target_user: opt_or_empty(&rec.user_data_user_name),
            target_domain: String::new(),
            logon_kind: String::from_str("10"),
            src_host: opt_or_empty(&rec.user_data_client_name),
            src_ip: opt_or_empty(&rec.user_data_client_name),
            process: String::new(),
            provenance: String::from_str(provenance),
        },
    )
}

/// A combined `DOMAIN\user` identity split at the first backslash; an
/// identity without a backslash has no domain part.
pub open spec fn spec_split_identity(u: Seq<char>) -> (Seq<char>, Seq<char>) {
    if text::spec_has_char(u, '\\') {
        let parts = text::spec_split(u, '\\');
        (parts[0], parts[1])
    } else {
        (Seq::empty(), u)
    }
}

/// Splits a combined `DOMAIN\user` identity into domain and user.
pub fn split_identity(u: &String) -> (r: (String, String))
    ensures
        r.0@ == spec_split_identity(u@).0,
        r.1@ == spec_split_identity(u@).1,
{
    let cs = text::chars_of(u.as_str());
    if text::has_char(&cs, '\\') {
        let parts = text::split_chars(&cs, '\\');
        proof {
            text::lemma_split_len(cs@, '\\');
            assert(text::spec_split(cs@, '\\').len() >= 2) by {
                let k = choose|k: int| 0 <= k < cs@.len() && cs@[k] == '\\';
                lemma_split_on_present_char(cs@, '\\');
            }
            assert(parts.deep_view()[0] =~= parts@[0]@);
            assert(parts.deep_view()[1] =~= parts@[1]@);
        }
        (text::string_of(&parts[0]), text::string_of(&parts[1]))
    } else {
        (String::new(), u.clone())
    }
}

/// A sequence that holds the separator splits into at least two segments.
proof fn lemma_split_on_present_char(s: Seq<char>, sep: char)
    requires
        text::spec_has_char(s, sep),
    ensures
        text::spec_split(s, sep).len() >= 2,
    decreases s.len(),
{
    if s.len() > 0 {
        text::lemma_split_len(s.drop_last(), sep);
        if s.last() != sep {
            let k = choose|k: int| 0 <= k < s.len() && s[k] == sep;
            assert(s.drop_last()[k] == sep);
            lemma_split_on_present_char(s.drop_last(), sep);
        }
    }
}

/// The local-session strategy: the record is kept only when both the
/// combined identity and the peer address are present; the identity splits
/// into domain and user at the first backslash.
pub open spec fn spec_rdp_localsession_event(rec: WinRecordV, provenance: Seq<char>) -> Option<
    EventV,
> {
    if spec_has_core(rec) && (rec.event_id->0 == "21"@ || rec.event_id->0 == "22"@
        || rec.event_id->0 == "24"@ || rec.event_id->0 == "25"@) && rec.event_xml_user is Some
        && rec.event_xml_address is Some {
        let du = spec_split_identity(rec.event_xml_user->0);
        Some(
            EventV {
                time: rec.system_time->0,
                dst_host: rec.computer->0,
                event_kind: rec.event_id->0,
                subject_user: Seq::empty(),
                subject_domain: Seq::empty(),
                target_user: du.1,
                target_domain: du.0,
                logon_kind: "10"@,
                src_host: rec.event_xml_address->0,
                src_ip: rec.event_xml_address->0,
                process: Seq::empty(),
                provenance: provenance,
            },
        )
    } else {
        None
    }
}

/// Maps one local-session-manager record.
pub fn rdp_localsession_event(rec: &WinRecord, provenance: &str) -> (r: Option<CanonicalEvent>)
    ensures
        match r {
            Some(ev) => spec_rdp_localsession_event(rec@, provenance@) == Some(ev@),
            None => spec_rdp_localsession_event(rec@, provenance@) is None,
        },
{
    let id = match &rec.event_id {
        Some(x) => x,
        None => {
            return None;
        },
    };
    if !(str_lit_eq(id, "21") || str_lit_eq(id, "22") || str_lit_eq(id, "24") || str_lit_eq(
        id,
        "25",
    )) {
        return None;
    }
    let time = match &rec.system_time {
        Some(x) => x,
        None => {
            return None;
        },
    };
    let computer = match &rec.computer {
        Some(x) => x,
        None => {
            return None;
        },
    };
    let xml_user = match &rec.event_xml_user {
        Some(x) => x,
        None => {
            return None;
        },
    };
    let address = match &rec.event_xml_address {
        Some(x) => x,
        None => {
            return None;
        },
    };
    let (dom, usr) = split_identity(xml_user);
    Some(
        CanonicalEvent {
            time: time.clone(),
            dst_host: computer.clone(),
            event_kind: id.clone(),
            subject_user: String::new(),
            subject_domain: String::new(),
            target_user: usr,
            target_domain: dom,
            logon_kind: String::from_str("10"),
            src_host: address.clone(),
            src_ip: address.clone(),
            process: String::new(),
            provenance: String::from_str(provenance),
        },
    )
}

/// The core terminal-services strategy: the client address field stands as
/// both source fields.
pub open spec fn spec_rdpcore_event(rec: WinRecordV, provenance: Seq<char>) -> Option<EventV> {
    if spec_has_core(rec) && rec.event_id->0 == "131"@ {
        Some(
            EventV {
                time: rec.system_time->0,
                dst_host: rec.computer->0,
                event_kind: rec.event_id->0,
                subject_user: Seq::empty(),
                subject_domain: Seq::empty(),
                target_user: Seq::empty(),
                target_domain: Seq::empty(),
                logon_kind: "10"@,
                src_host: spec_field_of(rec.data_fields, "ClientIP"@),
                src_ip: spec_field_of(rec.data_fields, "ClientIP"@),
                process: Seq::empty(),
                provenance: provenance,
            },
        )
    } else {
        None
    }
}

/// Maps one core terminal-services record.
pub fn rdpcore_event(rec: &WinRecord, provenance: &str) -> (r: Option<CanonicalEvent>)
    ensures
        match r {
            Some(ev) => spec_rdpcore_event(rec@, provenance@) == Some(ev@),
            None => spec_rdpcore_event(rec@, provenance@) is None,
        },
{
    let id = match &rec.event_id {
        Some(x) => x,
        None => {
            return None;
        },
    };
    if !str_lit_eq(id, "131") {
        return None;
    }
    let time = match &rec.system_time {
        Some(x) => x,
        None => {
            return None;
        },
    };
    let computer = match &rec.computer {
        Some(x) => x,
        None => {
            return None;
        },
    };
    Some(
        CanonicalEvent {
            time: time.clone(),
            dst_host: computer.clone(),
            event_kind: id.clone(),
            subject_user: String::new(),
            subject_domain: String::new(),
            target_user: String::new(),
            target_domain: String::new(),
            logon_kind: String::from_str("10"),
            src_host: field_of(&rec.data_fields, "ClientIP"),
            src_ip: field_of(&rec.data_fields, "ClientIP"),
            process: String::new(),
            provenance: String::from_str(provenance),
        },
    )
}

/// The mapping strategies, one per source channel.
pub enum SourceKind {
    Security,
    SmbServer,
    SmbClient,
    SmbClientConnectivity,
    RdpClient,
    RdpConnManager,
    RdpLocalSession,
    RdpCore,
}

/// The strategy a known event-log file name selects.
pub open spec fn spec_kind_of_filename(name: Seq<char>) -> Option<SourceKind> {
    if name == "Security.evtx"@ {
        Some(SourceKind::Security)
    } else if name == "Microsoft-Windows-SMBServer%4Security.evtx"@ {
        Some(SourceKind::SmbServer)
    } else if name == "Microsoft-Windows-SmbClient%4Security.evtx"@ {
        Some(SourceKind::SmbClient)
    } else if name == "Microsoft-Windows-SmbClient%4Connectivity.evtx"@ {
        Some(SourceKind::SmbClientConnectivity)
    } else if name == "Microsoft-Windows-TerminalServices-RDPClient%4Operational.evtx"@ {
        Some(SourceKind::RdpClient)
    } else if name == "Microsoft-Windows-TerminalServices-RemoteConnectionManager%4Operational.evtx"@ {
        Some(SourceKind::RdpConnManager)
    } else if name == "Microsoft-Windows-TerminalServices-LocalSessionManager%4Operational.evtx"@ {
        Some(SourceKind::RdpLocalSession)
    } else if name == "Microsoft-Windows-RemoteDesktopServices-RdpCoreTS%4Operational.evtx"@ {
        Some(SourceKind::RdpCore)
    } else {
        None
    }
}

/// Selects the strategy for a known event-log file name.
pub fn kind_of_filename(name: &String) -> (r: Option<SourceKind>)
    ensures
        r == spec_kind_of_filename(name@),
{
    if str_lit_eq(name, "Security.evtx") {
        Some(SourceKind::Security)
    } else if str_lit_eq(name, "Microsoft-Windows-SMBServer%4Security.evtx") {
        Some(SourceKind::SmbServer)
    } else if str_lit_eq(name, "Microsoft-Windows-SmbClient%4Security.evtx") {
        Some(SourceKind::SmbClient)
    } else if str_lit_eq(name, "Microsoft-Windows-SmbClient%4Connectivity.evtx") {
        Some(SourceKind::SmbClientConnectivity)
    } else if str_lit_eq(name, "Microsoft-Windows-TerminalServices-RDPClient%4Operational.evtx") {
        Some(SourceKind::RdpClient)
    } else if str_lit_eq(
        name,
        "Microsoft-Windows-TerminalServices-RemoteConnectionManager%4Operational.evtx",
    ) {
        Some(SourceKind::RdpConnManager)
    } else if str_lit_eq(
        name,
        "Microsoft-Windows-TerminalServices-LocalSessionManager%4Operational.evtx",
    ) {
        Some(SourceKind::RdpLocalSession)
    } else if str_lit_eq(
        name,
        "Microsoft-Windows-RemoteDesktopServices-RdpCoreTS%4Operational.evtx",
    ) {
        Some(SourceKind::RdpCore)
    } else {
        None
    }
}

/// The strategy a record's embedded provider name selects, used when the
/// file name is not recognized.
pub open spec fn spec_kind_of_provider(p: Seq<char>) -> Option<SourceKind> {
    if p == "Microsoft-Windows-Security-Auditing"@ {
        Some(SourceKind::Security)
    } else if p == "Microsoft-Windows-SMBServer"@ {
        Some(SourceKind::SmbServer)
    } else if p == "Microsoft-Windows-SMBClient"@ {
        Some(SourceKind::SmbClient)
    } else if p == "Microsoft-Windows-TerminalServices-ClientActiveXCore"@ {
        Some(SourceKind::RdpClient)
    } else if p == "Microsoft-Windows-TerminalServices-RemoteConnectionManager"@ {
        Some(SourceKind::RdpConnManager)
    } else if p == "Microsoft-Windows-TerminalServices-LocalSessionManager"@ {
        Some(SourceKind::RdpLocalSession)
    } else if p == "Microsoft-Windows-RemoteDesktopServices-RdpCoreTS"@ {
        Some(SourceKind::RdpCore)
    } else {
        None
    }
}

/// Selects the strategy by a record's provider name.
pub fn kind_of_provider(p: &String) -> (r: Option<SourceKind>)
    ensures
        r == spec_kind_of_provider(p@),
{
    if str_lit_eq(p, "Microsoft-Windows-Security-Auditing") {
        Some(SourceKind::Security)
    } else if str_lit_eq(p, "Microsoft-Windows-SMBServer") {
        Some(SourceKind::SmbServer)
    } else if str_lit_eq(p, "Microsoft-Windows-SMBClient") {
        Some(SourceKind::SmbClient)
    } else if str_lit_eq(p, "Microsoft-Windows-TerminalServices-ClientActiveXCore") {
        Some(SourceKind::RdpClient)
    } else if str_lit_eq(p, "Microsoft-Windows-TerminalServices-RemoteConnectionManager") {
        Some(SourceKind::RdpConnManager)
    } else if str_lit_eq(p, "Microsoft-Windows-TerminalServices-LocalSessionManager") {
        Some(SourceKind::RdpLocalSession)
    } else if str_lit_eq(p, "Microsoft-Windows-RemoteDesktopServices-RdpCoreTS") {
        Some(SourceKind::RdpCore)
    } else {
        None
    }
}

/// The event a strategy yields for one record.
pub open spec fn spec_map_record(
    kind: SourceKind,
    rec: WinRecordV,
    provenance: Seq<char>,
) -> Option<EventV> {
    match kind {
        SourceKind::Security => spec_security_event(rec, provenance),
        SourceKind::SmbServer => spec_smb_server_event(rec, provenance),
        SourceKind::SmbClient => spec_smb_client_event(rec, provenance, false),
        SourceKind::SmbClientConnectivity => spec_smb_client_event(rec, provenance, true),
        SourceKind::RdpClient => spec_rdp_client_event(rec, provenance),
        SourceKind::RdpConnManager => spec_rdp_connmanager_event(rec, provenance),
        SourceKind::RdpLocalSession => spec_rdp_localsession_event(rec, provenance),
        SourceKind::RdpCore => spec_rdpcore_event(rec, provenance),
    }
}

/// Maps one record under the chosen strategy; a record outside the
/// strategy's allow-list, or missing what the strategy requires, yields
/// nothing, and decoding of the remaining records goes on.
pub fn map_record(kind: &SourceKind, rec: &WinRecord, provenance: &str) -> (r: Option<
    CanonicalEvent,
>)
    ensures
        match r {
            Some(ev) => spec_map_record(*kind, rec@, provenance@) == Some(ev@),
            None => spec_map_record(*kind, rec@, provenance@) is None,
        },
{
    match kind {
        SourceKind::Security => security_event(rec, provenance),
        SourceKind::SmbServer => smb_server_event(rec, provenance),
        SourceKind::SmbClient => smb_client_event(rec, provenance, false),
        SourceKind::SmbClientConnectivity => smb_client_event(rec, provenance, true),
        SourceKind::RdpClient => rdp_client_event(rec, provenance),
        SourceKind::RdpConnManager => rdp_connmanager_event(rec, provenance),
        SourceKind::RdpLocalSession => rdp_localsession_event(rec, provenance),
        SourceKind::RdpCore => rdpcore_event(rec, provenance),
    }
}

} // verus!
