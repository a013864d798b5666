//! Field mapping for log-shipper JSON records of Windows events: the same
//! per-provider strategies as the event-log decoders, driven by the numeric
//! event kind the shipper carries, with empty strings for missing fields.
use vstd::prelude::*;
use crate::model::{CanonicalEvent, EventV};
use crate::text;
use crate::winevent::{DataField, DataFieldV, spec_opt_view, spec_opt_or_empty, spec_split_identity};

verus! {

/// Ghost image of one shipped record.
pub ghost struct WinlogRecordV {
    pub timestamp: Option<Seq<char>>,
    pub host_name: Option<Seq<char>>,
    pub event_id: Option<i64>,
    pub data_fields: Seq<DataFieldV>,
}

/// One shipped record, reduced to the plain values the mapping reads: the
/// timestamp, the reporting host, the numeric event kind, and the named
/// event-data values.
pub struct WinlogRecord {
    pub timestamp: Option<String>,
    pub host_name: Option<String>,
    pub event_id: Option<i64>,
    pub data_fields: Vec<DataField>,
}

impl View for WinlogRecord {
    type V = WinlogRecordV;

    open spec fn view(&self) -> WinlogRecordV {
        WinlogRecordV {
            timestamp: spec_opt_view(self.timestamp),
            host_name: spec_opt_view(self.host_name),
            event_id: self.event_id,
            data_fields: Seq::new(self.data_fields@.len(), |i: int| self.data_fields@[i]@),
        }
    }
}

/// The value of the last occurrence of a named field, empty when the name
/// never occurs or carries no value.
pub open spec fn spec_field_or_empty(datas: Seq<DataFieldV>, name: Seq<char>) -> Seq<char>
    decreases datas.len(),
{
    if datas.len() == 0 {
        Seq::empty()
    } else if datas.last().name == name {
        spec_opt_or_empty(datas.last().body)
    } else {
        spec_field_or_empty(datas.drop_last(), name)
    }
}

/// Looks up a named field, empty when absent.
#[verifier::loop_isolation(false)]
pub fn field_or_empty(datas: &Vec<DataField>, name: &str) -> (r: String)
    ensures
        r@ == spec_field_or_empty(Seq::new(datas@.len(), |i: int| datas@[i]@), name@),
{
    let ghost dv = Seq::new(datas@.len(), |i: int| datas@[i]@);
    let nm = String::from_str(name);
    let mut cur = String::new();
    let mut i: usize = 0;
    while i < datas.len()
        invariant
            i <= datas@.len(),
            nm@ == name@,
            cur@ == spec_field_or_empty(dv.take(i as int), name@),
        decreases datas@.len() - i,
    {
        proof {
            assert(dv.take(i + 1).drop_last() =~= dv.take(i as int));
            assert(dv.take(i + 1).last() == dv[i as int]);
        }
        if datas[i].name == nm {
            match &datas[i].body {
                Some(b) => {
                    cur = b.clone();
                },
                None => {
                    cur = String::new();
                },
            }
        }
        i = i + 1;
    }
    proof {
        assert(dv.take(datas@.len() as int) =~= dv);
    }
    cur
}

/// The decimal rendering of an allow-listed event kind.
pub open spec fn spec_id_str(id: int) -> Seq<char> {
    if id == 4624 {
        "4624"@
    } else if id == 4625 {
        "4625"@
    } else if id == 4634 {
        "4634"@
    } else if id == 4647 {
        "4647"@
    } else if id == 4648 {
        "4648"@
    } else if id == 4768 {
        "4768"@
    } else if id == 4769 {
        "4769"@
    } else if id == 4770 {
        "4770"@
    } else if id == 4771 {
        "4771"@
    } else if id == 4776 {
        "4776"@
    } else if id == 4778 {
        "4778"@
    } else if id == 4779 {
        "4779"@
    } else if id == 31001 {
        "31001"@
    } else if id == 30803 {
        "30803"@
    } else if id == 30804 {
        "30804"@
    } else if id == 30805 {
        "30805"@
    } else if id == 30806 {
        "30806"@
    } else if id == 30807 {
        "30807"@
    } else if id == 30808 {
        "30808"@
    } else if id == 1009 {
        "1009"@
    } else if id == 551 {
        "551"@
    } else if id == 1024 {
        "1024"@
    } else if id == 1102 {
        "1102"@
    } else if id == 1149 {
        "1149"@
    } else if id == 21 {
        "21"@
    } else if id == 22 {
        "22"@
    } else if id == 24 {
        "24"@
    } else if id == 25 {
        "25"@
    } else if id == 131 {
        "131"@
    } else {
        Seq::empty()
    }
}

/// The shape one shipped record maps to, decided by its event kind.
pub open spec fn spec_winlog_event(rec: WinlogRecordV, provenance: Seq<char>) -> Option<EventV> {
    if rec.event_id is None {
        None
    } else {
        let id = rec.event_id->0 as int;
        let time = spec_opt_or_empty(rec.timestamp);
        let host = spec_opt_or_empty(rec.host_name);
        let base = EventV {
            time: time,
            dst_host: host,
            event_kind: spec_id_str(id),
            subject_user: Seq::empty(),
            subject_domain: Seq::empty(),
            target_user: Seq::empty(),
            target_domain: Seq::empty(),
            logon_kind: Seq::empty(),
            src_host: Seq::empty(),
            src_ip: Seq::empty(),
            process: Seq::empty(),
            provenance: provenance,
        };
        let d = rec.data_fields;
        if id == 4624 || id == 4625 || id == 4634 || id == 4647 || id == 4648 || id == 4768 || id
            == 4769 || id == 4770 || id == 4771 || id == 4776 || id == 4778 || id == 4779 {
            Some(
                EventV {
                    subject_user: spec_field_or_empty(d, "SubjectUserName"@),
                    subject_domain: spec_field_or_empty(d, "SubjectDomainName"@),
                    target_user: spec_field_or_empty(d, "TargetUserName"@),
                    target_domain: spec_field_or_empty(d, "TargetDomainName"@),
                    logon_kind: spec_field_or_empty(d, "LogonType"@),
                    src_host: spec_field_or_empty(d, "WorkstationName"@),
                    src_ip: spec_field_or_empty(d, "IpAddress"@),
                    ..base
                },
            )
        } else if id == 31001 || id == 30803 || id == 30804 || id == 30805 || id == 30806 || id
            == 30807 || id == 30808 {
            Some(
                EventV {
                    target_user: spec_field_or_empty(d, "UserName"@),
                    logon_kind: "3"@,
                    src_host: spec_field_or_empty(d, "ServerName"@),
                    ..base
                },
            )
        } else if id == 1009 || id == 551 {
            Some(
                EventV {
                    subject_user: spec_field_or_empty(d, "UserName"@),
                    logon_kind: "3"@,
                    src_host: spec_field_or_empty(d, "ClientName"@),
                    ..base
                },
            )
        } else if id == 1024 || id == 1102 {
            Some(
                EventV {
                    target_user: spec_field_or_empty(d, "UserID"@),
                    logon_kind: "10"@,
                    src_host: spec_field_or_empty(d, "Value"@),
                    ..base
                },
            )
        } else if id == 1149 {
            Some(
                EventV {
                    target_user: spec_field_or_empty(d, "Param1"@),
                    target_domain: spec_field_or_empty(d, "Param2"@),
                    logon_kind: "10"@,
                    src_host: spec_field_or_empty(d, "Param3"@),
                    ..base
                },
            )
        } else if id == 21 || id == 22 || id == 24 || id == 25 {
            let du = spec_split_identity(spec_field_or_empty(d, "User"@));
            Some(
                EventV {
                    target_user: du.1,
                    target_domain: du.0,
                    logon_kind: "10"@,
                    src_host: spec_field_or_empty(d, "Address"@),
                    ..base
                },
            )
        } else if id == 131 {
            Some(EventV { logon_kind: "10"@, src_host: spec_field_or_empty(d, "ClientIP"@), ..base })
        } else {
            None
        }
    }
}

/// Maps one shipped record; `None` exactly on records without an event kind
/// or outside every allow-list.  No missing field stops the mapping: all
/// default to the empty string.
pub fn winlog_event(rec: &WinlogRecord, provenance: &str) -> (r: Option<CanonicalEvent>)
    ensures
        match r {
            Some(ev) => spec_winlog_event(rec@, provenance@) == Some(ev@),
            None => spec_winlog_event(rec@, provenance@) is None,
        },
{
    let id = match rec.event_id {
        Some(x) => x,
        None => {
            return None;
        },
    };
    let idtxt: &str = if id == 4624 {
        "4624"
    } else if id == 4625 {
        "4625"
    } else if id == 4634 {
        "4634"
    } else if id == 4647 {
        "4647"
    } else if id == 4648 {
        "4648"
    } else if id == 4768 {
        "4768"
    } else if id == 4769 {
        "4769"
    } else if id == 4770 {
        "4770"
    } else if id == 4771 {
        "4771"
    } else if id == 4776 {
        "4776"
    } else if id == 4778 {
        "4778"
    } else if id == 4779 {
        "4779"
    } else if id == 31001 {
        "31001"
    } else if id == 30803 {
        "30803"
    } else if id == 30804 {
        "30804"
    } else if id == 30805 {
        "30805"
    } else if id == 30806 {
        "30806"
    } else if id == 30807 {
        "30807"
    } else if id == 30808 {
        "30808"
    } else if id == 1009 {
        "1009"
    } else if id == 551 {
        "551"
    } else if id == 1024 {
        "1024"
    } else if id == 1102 {
        "1102"
    } else if id == 1149 {
        "1149"
    } else if id == 21 {
        "21"
    } else if id == 22 {
        "22"
    } else if id == 24 {
        "24"
    } else if id == 25 {
        "25"
    } else if id == 131 {
        "131"
    } else {
        return None;
    };
    proof {
        assert(idtxt@ == spec_id_str(id as int));
    }
    let time = crate::winevent::opt_or_empty(&rec.timestamp);
    let host = crate::winevent::opt_or_empty(&rec.host_name);
    let d = &rec.data_fields;
    let mut ev = CanonicalEvent {
        time,
        dst_host: host,
        event_kind: String::from_str(idtxt),
        subject_user: String::new(),
        subject_domain: String::new(),
        target_user: String::new(),
        target_domain: String::new(),
        logon_kind: String::new(),
        src_host: String::new(),
        src_ip: String::new(),
        process: String::new(),
        provenance: String::from_str(provenance),
    };
    if id == 4624 || id == 4625 || id == 4634 || id == 4647 || id == 4648 || id == 4768 || id
        == 4769 || id == 4770 || id == 4771 || id == 4776 || id == 4778 || id == 4779 {
        ev.subject_user = field_or_empty(d, "SubjectUserName");
        ev.subject_domain = field_or_empty(d, "SubjectDomainName");
        ev.target_user = field_or_empty(d, "TargetUserName");
        ev.target_domain = field_or_empty(d, "TargetDomainName");
        ev.logon_kind = field_or_empty(d, "LogonType");
        ev.src_host = field_or_empty(d, "WorkstationName");
        ev.src_ip = field_or_empty(d, "IpAddress");
        Some(ev)
    } else if id == 31001 || id == 30803 || id == 30804 || id == 30805 || id == 30806 || id
        == 30807 || id == 30808 {
        ev.target_user = field_or_empty(d, "UserName");
        ev.logon_kind = String::from_str("3");
        ev.src_host = field_or_empty(d, "ServerName");
        Some(ev)
    } else if id == 1009 || id == 551 {
        ev.subject_user = field_or_empty(d, "UserName");
        ev.logon_kind = String::from_str("3");
        ev.src_host = field_or_empty(d, "ClientName");
        Some(ev)
    } else if id == 1024 || id == 1102 {
        ev.target_user = field_or_empty(d, "UserID");
        ev.logon_kind = String::from_str("10");
        ev.src_host = field_or_empty(d, "Value");
        Some(ev)
    } else if id == 1149 {
        ev.target_user = field_or_empty(d, "Param1");
        ev.target_domain = field_or_empty(d, "Param2");
        ev.logon_kind = String::from_str("10");
        ev.src_host = field_or_empty(d, "Param3");
        Some(ev)
    } else if id == 21 || id == 22 || id == 24 || id == 25 {
        let u = field_or_empty(d, "User");
        let (dom, usr) = crate::winevent::split_identity(&u);
        ev.target_user = usr;
        ev.target_domain = dom;
        ev.logon_kind = String::from_str("10");
        ev.src_host = field_or_empty(d, "Address");
        Some(ev)
    } else {
        ev.logon_kind = String::from_str("10");
        ev.src_host = field_or_empty(d, "ClientIP");
        Some(ev)
    }
}

} // verus!
