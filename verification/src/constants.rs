//! Names and numbers of the remote-debug protocol.

use vstd::prelude::*;
use crate::json::str_equal;

verus! {

/// Default port of the server the mini program connects to.
pub const DEBUG_PORT: u16 = 9421;

/// Default port of the server Chrome DevTools connects to.
pub const CDP_PORT: u16 = 62666;

/// The bit of a message's `compress_algo` that marks a zlib-compressed body.
pub const COMPRESS_ZLIB: u32 = 1;

/// The categories of debug messages.
#[derive(Clone, Copy, Debug, PartialEq, Eq, Structural)]
pub enum DebugMessageCategory {
    SetupContext,
    CallInterface,
    CallInterfaceResult,
    EvaluateJavascript,
    EvaluateJavascriptResult,
    Breakpoint,
    Ping,
    Pong,
    DomOp,
    DomEvent,
    NetworkDebugAPI,
    ChromeDevtools,
    ChromeDevtoolsResult,
    AddJsContext,
    RemoveJsContext,
    ConnectJsContext,
    CustomMessage,
}

/// The name of a category as it stands in a message.
pub open spec fn category_name(c: DebugMessageCategory) -> Seq<char> {
    match c {
        DebugMessageCategory::SetupContext => "setupContext"@,
        DebugMessageCategory::CallInterface => "callInterface"@,
        DebugMessageCategory::CallInterfaceResult => "callInterfaceResult"@,
        DebugMessageCategory::EvaluateJavascript => "evaluateJavascript"@,
        DebugMessageCategory::EvaluateJavascriptResult => "evaluateJavascriptResult"@,
        DebugMessageCategory::Breakpoint => "breakpoint"@,
        DebugMessageCategory::Ping => "ping"@,
        DebugMessageCategory::Pong => "pong"@,
        DebugMessageCategory::DomOp => "domOp"@,
        DebugMessageCategory::DomEvent => "domEvent"@,
        DebugMessageCategory::NetworkDebugAPI => "networkDebugAPI"@,
        DebugMessageCategory::ChromeDevtools => "chromeDevtools"@,
        DebugMessageCategory::ChromeDevtoolsResult => "chromeDevtoolsResult"@,
        DebugMessageCategory::AddJsContext => "addJsContext"@,
        DebugMessageCategory::RemoveJsContext => "removeJsContext"@,
        DebugMessageCategory::ConnectJsContext => "connectJsContext"@,
        DebugMessageCategory::CustomMessage => "customMessage"@,
    }
}

/// The category with name `s`, if any.
pub open spec fn category_named(s: Seq<char>) -> Option<DebugMessageCategory> {
    if exists|c: DebugMessageCategory| category_name(c) == s {
        Some(choose|c: DebugMessageCategory| category_name(c) == s)
    } else {
        None
    }
}

impl DebugMessageCategory {
    /// The name of the category.
    pub fn as_str(&self) -> (r: &'static str)
        ensures
            r@ == category_name(*self),
    {
        match self {
            DebugMessageCategory::SetupContext => "setupContext",
            DebugMessageCategory::CallInterface => "callInterface",
            DebugMessageCategory::CallInterfaceResult => "callInterfaceResult",
            DebugMessageCategory::EvaluateJavascript => "evaluateJavascript",
            DebugMessageCategory::EvaluateJavascriptResult => "evaluateJavascriptResult",
            DebugMessageCategory::Breakpoint => "breakpoint",
            DebugMessageCategory::Ping => "ping",
            DebugMessageCategory::Pong => "pong",
            DebugMessageCategory::DomOp => "domOp",
            DebugMessageCategory::DomEvent => "domEvent",
            DebugMessageCategory::NetworkDebugAPI => "networkDebugAPI",
            DebugMessageCategory::ChromeDevtools => "chromeDevtools",
            DebugMessageCategory::ChromeDevtoolsResult => "chromeDevtoolsResult",
            DebugMessageCategory::AddJsContext => "addJsContext",
            DebugMessageCategory::RemoveJsContext => "removeJsContext",
            DebugMessageCategory::ConnectJsContext => "connectJsContext",
            DebugMessageCategory::CustomMessage => "customMessage",
        }
    }

    /// The category with name `s`; `None` where no category has that name.
    pub fn from_str(s: &str) -> (r: Option<DebugMessageCategory>)
        ensures
            r == category_named(s@),
    {
        proof {
            lemma_category_names_distinct();
        }
        if str_equal(s, "setupContext") {
            assert(category_name(DebugMessageCategory::SetupContext) == s@);
            return Some(DebugMessageCategory::SetupContext);
        }
        if str_equal(s, "callInterface") {
            assert(category_name(DebugMessageCategory::CallInterface) == s@);
            return Some(DebugMessageCategory::CallInterface);
        }
        if str_equal(s, "callInterfaceResult") {
            assert(category_name(DebugMessageCategory::CallInterfaceResult) == s@);
            return Some(DebugMessageCategory::CallInterfaceResult);
        }
        if str_equal(s, "evaluateJavascript") {
            assert(category_name(DebugMessageCategory::EvaluateJavascript) == s@);
            return Some(DebugMessageCategory::EvaluateJavascript);
        }
        if str_equal(s, "evaluateJavascriptResult") {
            assert(category_name(DebugMessageCategory::EvaluateJavascriptResult) == s@);
            return Some(DebugMessageCategory::EvaluateJavascriptResult);
        }
        if str_equal(s, "breakpoint") {
            assert(category_name(DebugMessageCategory::Breakpoint) == s@);
            return Some(DebugMessageCategory::Breakpoint);
        }
        if str_equal(s, "ping") {
            assert(category_name(DebugMessageCategory::Ping) == s@);
            return Some(DebugMessageCategory::Ping);
        }
        if str_equal(s, "pong") {
            assert(category_name(DebugMessageCategory::Pong) == s@);
            return Some(DebugMessageCategory::Pong);
        }
        if str_equal(s, "domOp") {
            assert(category_name(DebugMessageCategory::DomOp) == s@);
            return Some(DebugMessageCategory::DomOp);
        }
        if str_equal(s, "domEvent") {
            assert(category_name(DebugMessageCategory::DomEvent) == s@);
            return Some(DebugMessageCategory::DomEvent);
        }
        if str_equal(s, "networkDebugAPI") {
            assert(category_name(DebugMessageCategory::NetworkDebugAPI) == s@);
            return Some(DebugMessageCategory::NetworkDebugAPI);
        }
        if str_equal(s, "chromeDevtools") {
            assert(category_name(DebugMessageCategory::ChromeDevtools) == s@);
            return Some(DebugMessageCategory::ChromeDevtools);
        }
        if str_equal(s, "chromeDevtoolsResult") {
            assert(category_name(DebugMessageCategory::ChromeDevtoolsResult) == s@);
            return Some(DebugMessageCategory::ChromeDevtoolsResult);
        }
        if str_equal(s, "addJsContext") {
            assert(category_name(DebugMessageCategory::AddJsContext) == s@);
            return Some(DebugMessageCategory::AddJsContext);
        }
        if str_equal(s, "removeJsContext") {
            assert(category_name(DebugMessageCategory::RemoveJsContext) == s@);
            return Some(DebugMessageCategory::RemoveJsContext);
        }
        if str_equal(s, "connectJsContext") {
            assert(category_name(DebugMessageCategory::ConnectJsContext) == s@);
            return Some(DebugMessageCategory::ConnectJsContext);
        }
        if str_equal(s, "customMessage") {
            assert(category_name(DebugMessageCategory::CustomMessage) == s@);
            return Some(DebugMessageCategory::CustomMessage);
        }
        assert forall|c: DebugMessageCategory| category_name(c) != s@ by {
            match c {
                DebugMessageCategory::SetupContext => {},
                DebugMessageCategory::CallInterface => {},
                DebugMessageCategory::CallInterfaceResult => {},
                DebugMessageCategory::EvaluateJavascript => {},
                DebugMessageCategory::EvaluateJavascriptResult => {},
                DebugMessageCategory::Breakpoint => {},
                DebugMessageCategory::Ping => {},
                DebugMessageCategory::Pong => {},
                DebugMessageCategory::DomOp => {},
                DebugMessageCategory::DomEvent => {},
                DebugMessageCategory::NetworkDebugAPI => {},
                DebugMessageCategory::ChromeDevtools => {},
                DebugMessageCategory::ChromeDevtoolsResult => {},
                DebugMessageCategory::AddJsContext => {},
                DebugMessageCategory::RemoveJsContext => {},
                DebugMessageCategory::ConnectJsContext => {},
                DebugMessageCategory::CustomMessage => {},
            }
        }
        None
    }
}

/// No two categories share a name.
pub proof fn lemma_category_names_distinct()
    ensures
        forall|a: DebugMessageCategory, b: DebugMessageCategory|
            #[trigger] category_name(a) == #[trigger] category_name(b) ==> a == b,
{
    reveal_strlit("setupContext");
    reveal_strlit("callInterface");
    reveal_strlit("callInterfaceResult");
    reveal_strlit("evaluateJavascript");
    reveal_strlit("evaluateJavascriptResult");
    reveal_strlit("breakpoint");
    reveal_strlit("ping");
    reveal_strlit("pong");
    reveal_strlit("domOp");
    reveal_strlit("domEvent");
    reveal_strlit("networkDebugAPI");
    reveal_strlit("chromeDevtools");
    reveal_strlit("chromeDevtoolsResult");
    reveal_strlit("addJsContext");
    reveal_strlit("removeJsContext");
    reveal_strlit("connectJsContext");
    reveal_strlit("customMessage");
    assert forall|a: DebugMessageCategory, b: DebugMessageCategory|
        #[trigger] category_name(a) == #[trigger] category_name(b) implies a == b by {
        if a != b {
            let x = category_name(a);
            let y = category_name(b);
            assert(x.len() != y.len() || exists|i: int| 0 <= i < x.len() && x[i] != y[i]) by {
                match (a, b) {
                    _ => {
                        if x.len() == y.len() {
                            assert(x[0] != y[0] || x[1] != y[1] || x[2] != y[2] || x[x.len() - 1] != y[x.len() - 1]);
                        }
                    },
                }
            }
        }
    }
}

/// A category's name leads back to the category.
pub proof fn lemma_category_roundtrip(c: DebugMessageCategory)
    ensures
        category_named(category_name(c)) == Some(c),
{
    lemma_category_names_distinct();
}

/// The name of a reply or notification by its command number.
pub open spec fn response_type_name_spec(cmd: u32) -> Seq<char> {
    if cmd == 1000 {
        "MessageNotify"@
    } else if cmd == 1006 {
        "MessageNotifyParallelly"@
    } else if cmd == 2000 {
        "SendDebugMessage"@
    } else if cmd == 2001 {
        "Heartbeat"@
    } else if cmd == 2002 {
        "Login"@
    } else if cmd == 2003 {
        "JoinRoom"@
    } else if cmd == 2004 {
        "QuitRoom"@
    } else if cmd == 2005 {
        "SyncMessage"@
    } else if cmd == 2006 {
        "SendDebugMessageParallelly"@
    } else if 3001 <= cmd <= 3003 {
        "EventNotify"@
    } else {
        "Unknown"@
    }
}

/// The name of a reply or notification by its command number.
pub fn response_type_name(cmd: u32) -> (r: &'static str)
    ensures
        r@ == response_type_name_spec(cmd),
{
    if cmd == 1000 {
        "MessageNotify"
    } else if cmd == 1006 {
        "MessageNotifyParallelly"
    } else if cmd == 2000 {
        "SendDebugMessage"
    } else if cmd == 2001 {
        "Heartbeat"
    } else if cmd == 2002 {
        "Login"
    } else if cmd == 2003 {
        "JoinRoom"
    } else if cmd == 2004 {
        "QuitRoom"
    } else if cmd == 2005 {
        "SyncMessage"
    } else if cmd == 2006 {
        "SendDebugMessageParallelly"
    } else if 3001 <= cmd && cmd <= 3003 {
        "EventNotify"
    } else {
        "Unknown"
    }
}

} // verus!
