//! Service fingerprinting: classifying what listens on a port from one
//! captured HTTP exchange, with a port-table fallback. The TCP exchange
//! itself happens outside the library and hands in the raw response text.

use vstd::prelude::*;
use crate::text::{
    contains_sub, contains_sub_spec, dec_digits, lines_spec, lower_spec, push_dec,
    split_lines, starts_with, starts_with_spec, str_len, substring_copy, trim, trim_spec,
};
use crate::discovery::opt_view;
use crate::portscan::{get_service_name, service_name_spec};

verus! {

/// A classification of a listening port.
#[derive(Debug, Clone)]
pub struct ServiceInfo {
    pub port: u16,
    pub service: String,
    pub service_type: String,
    pub server: Option<String>,
    pub content_type: Option<String>,
}

/// The mathematical value of a `ServiceInfo`.
pub ghost struct ServiceV {
    pub port: u16,
    pub service: Seq<char>,
    pub service_type: Seq<char>,
    pub server: Option<Seq<char>>,
    pub content_type: Option<Seq<char>>,
}

impl View for ServiceInfo {
    type V = ServiceV;

    open spec fn view(&self) -> ServiceV {
        ServiceV {
            port: self.port,
            service: self.service@,
            service_type: self.service_type@,
            server: opt_view(self.server),
            content_type: opt_view(self.content_type),
        }
    }
}

/// A port the prober treats as HTTP-style.
pub open spec fn is_http_port_spec(port: u16) -> bool {
    ||| port == 80
    ||| port == 443
    ||| port == 3000
    ||| port == 3001
    ||| port == 4000
    ||| port == 4200
    ||| port == 5000
    ||| port == 5173
    ||| port == 8000
    ||| port == 8080
    ||| port == 8081
    ||| port == 8443
    ||| port == 8888
    ||| port == 9000
    ||| port == 9090
    ||| port == 19000
}

/// Whether the prober attempts an HTTP exchange on this port.
pub fn is_http_port(port: u16) -> (r: bool)
    ensures
        r == is_http_port_spec(port),
{
    port == 80 || port == 443 || port == 3000 || port == 3001 || port == 4000 || port == 4200
        || port == 5000 || port == 5173 || port == 8000 || port == 8080 || port == 8081 || port
        == 8443 || port == 8888 || port == 9000 || port == 9090 || port == 19000
}

/// The category a port falls in when no exchange settles it.
pub open spec fn infer_service_type_spec(port: u16) -> Seq<char> {
    if port == 1433 || port == 1521 || port == 3306 || port == 5432 || port == 5984 || port
        == 6379 || port == 9042 || port == 9200 || port == 27017 || port == 28015 {
        "database"@
    } else if port == 1883 || port == 5672 || port == 6650 || port == 9092 || port == 61616 {
        "queue"@
    } else if port == 11211 {
        "cache"@
    } else if port == 80 || port == 443 || port == 3000 || port == 4200 || port == 5173 || port
        == 8080 || port == 8443 {
        "web"@
    } else if port == 4000 || port == 5000 || port == 8000 || port == 9000 {
        "api"@
    } else {
        "other"@
    }
}

/// The static port-based category.
pub fn infer_service_type(port: u16) -> (r: String)
    ensures
        r@ == infer_service_type_spec(port),
{
    if port == 1433 || port == 1521 || port == 3306 || port == 5432 || port == 5984 || port
        == 6379 || port == 9042 || port == 9200 || port == 27017 || port == 28015 {
        String::from_str("database")
    } else if port == 1883 || port == 5672 || port == 6650 || port == 9092 || port == 61616 {
        String::from_str("queue")
    } else if port == 11211 {
        String::from_str("cache")
    } else if port == 80 || port == 443 || port == 3000 || port == 4200 || port == 5173 || port
        == 8080 || port == 8443 {
        String::from_str("web")
    } else if port == 4000 || port == 5000 || port == 8000 || port == 9000 {
        String::from_str("api")
    } else {
        String::from_str("other")
    }
}

/// The header-scan state: the latest `Server` and `Content-Type` values
/// seen, and whether the evidence so far says API rather than web.
pub ghost struct HeaderSt {
    pub server: Option<Seq<char>>,
    pub ctype: Option<Seq<char>>,
    pub api: bool,
}

/// How one response line updates the header scan.
pub open spec fn header_step(st: HeaderSt, line: Seq<char>) -> HeaderSt {
    let low = lower_spec(line);
    let st1 = if starts_with_spec(low, "server:"@) {
        HeaderSt { server: Some(trim_spec(line.skip(7))), ctype: st.ctype, api: st.api }
    } else {
        st
    };
    let st2 = if starts_with_spec(low, "content-type:"@) {
        let ct = trim_spec(line.skip(13));
        let api2 = if contains_sub_spec(ct, "application/json"@) || contains_sub_spec(
            ct,
            "api"@,
        ) {
            true
        } else if contains_sub_spec(ct, "text/html"@) {
            false
        } else if contains_sub_spec(ct, "application/xml"@) || contains_sub_spec(
            ct,
            "text/xml"@,
        ) {
            true
        } else {
            st1.api
        };
        HeaderSt { server: st1.server, ctype: Some(ct), api: api2 }
    } else {
        st1
    };
    if contains_sub_spec(low, "x-powered-by:"@) && (contains_sub_spec(low, "express"@)
        || contains_sub_spec(low, "flask"@) || contains_sub_spec(low, "django"@)
        || contains_sub_spec(low, "fastapi"@)) {
        HeaderSt { server: st2.server, ctype: st2.ctype, api: true }
    } else {
        st2
    }
}

/// The header scan over the lines at and after `i`.
pub open spec fn header_scan(ls: Seq<Seq<char>>, i: int, st: HeaderSt) -> HeaderSt
    decreases ls.len() - i
        when 0 <= i
{
    if i >= ls.len() {
        st
    } else {
        header_scan(ls, i + 1, header_step(st, ls[i]))
    }
}

/// How the response body refines the call: an HTML body reads as web,
/// a JSON-shaped body as API.
pub open spec fn body_adjust(body: Seq<char>, api: bool) -> bool {
    if contains_sub_spec(body, "<!doctype html"@) || contains_sub_spec(body, "<html"@) {
        if contains_sub_spec(body, "react"@) || contains_sub_spec(body, "vue"@)
            || contains_sub_spec(body, "angular"@) || contains_sub_spec(body, "next"@)
            || contains_sub_spec(body, "vite"@) {
            false
        } else {
            api
        }
    } else if starts_with_spec(body, "{"@) || contains_sub_spec(body, "\"data\":"@)
        || contains_sub_spec(body, "\"error\":"@) {
        true
    } else {
        api
    }
}

/// What a captured HTTP response means for a port: the header scan, then
/// the body rules, label and category from that reading.
pub open spec fn classify_spec(port: u16, resp: Seq<char>) -> ServiceV {
    let st = header_scan(lines_spec(resp), 0, HeaderSt { server: None, ctype: None, api: false });
    let api = body_adjust(lower_spec(resp), st.api);
    ServiceV {
        port: port,
        service: (if api {
            "API ("@
        } else {
            "Web ("@
        }) + dec_digits(port as nat) + ")"@,
        service_type: if api {
            "api"@
        } else {
            "web"@
        },
        server: st.server,
        content_type: st.ctype,
    }
}

/// Classifies a port from one captured HTTP response: a `text/html`
/// content type or an HTML body reads as a web server, JSON or API
/// framework markers as an API.
pub fn classify_http_response(port: u16, resp: &str) -> (r: ServiceInfo)
    ensures
        r@ == classify_spec(port, resp@),
{
    let ls = split_lines(resp);
    let ghost lv = lines_spec(resp@);
    let ghost init = HeaderSt { server: None, ctype: None, api: false };
    let n = ls.len();
    let mut server: Option<String> = None;
    let mut ctype: Option<String> = None;
    let mut api = false;
    let mut i: usize = 0;
    while i < n
        invariant
            0 <= i <= n == ls.len(),
            lv == lines_spec(resp@),
            ls.deep_view() == lv,
            header_scan(lv, 0, init) == header_scan(
                lv,
                i as int,
                HeaderSt { server: opt_view(server), ctype: opt_view(ctype), api: api },
            ),
        decreases n - i,
    {
        proof {
            assert(lv[i as int] == ls@[i as int]@);
        }
        let line = ls[i].as_str();
        let ln = str_len(line);
        let low = crate::text::to_lower(line);
        let ghost st0 = HeaderSt { server: opt_view(server), ctype: opt_view(ctype), api: api };
        if starts_with(low.as_str(), "server:") {
            proof {
                reveal_strlit("server:");
            }
            let v = substring_copy(line, 7, ln);
            proof {
                assert(v@ =~= lv[i as int].skip(7));
            }
            server = Some(trim(v.as_str()));
        }
        let ghost st1 = if starts_with_spec(lower_spec(lv[i as int]), "server:"@) {
            HeaderSt { server: opt_view(server), ctype: st0.ctype, api: st0.api }
        } else {
            st0
        };
        if starts_with(low.as_str(), "content-type:") {
            proof {
                reveal_strlit("content-type:");
            }
            let v = substring_copy(line, 13, ln);
            proof {
                assert(v@ =~= lv[i as int].skip(13));
            }
            let ct = trim(v.as_str());
            if contains_sub(ct.as_str(), "application/json") || contains_sub(ct.as_str(), "api") {
                api = true;
            } else if contains_sub(ct.as_str(), "text/html") {
                api = false;
            } else if contains_sub(ct.as_str(), "application/xml") || contains_sub(
                ct.as_str(),
                "text/xml",
            ) {
                api = true;
            }
            ctype = Some(ct);
        }
        let ghost st2 = HeaderSt { server: opt_view(server), ctype: opt_view(ctype), api: api };
        proof {
            assert(st2 == if starts_with_spec(lower_spec(lv[i as int]), "content-type:"@) {
                let ct = trim_spec(lv[i as int].skip(13));
                HeaderSt {
                    server: st1.server,
                    ctype: Some(ct),
                    api: if contains_sub_spec(ct, "application/json"@) || contains_sub_spec(
                        ct,
                        "api"@,
                    ) {
                        true
                    } else if contains_sub_spec(ct, "text/html"@) {
                        false
                    } else if contains_sub_spec(ct, "application/xml"@) || contains_sub_spec(
                        ct,
                        "text/xml"@,
                    ) {
                        true
                    } else {
                        st1.api
                    },
                }
            } else {
                st1
            });
        }
        if contains_sub(low.as_str(), "x-powered-by:") {
            if contains_sub(low.as_str(), "express") || contains_sub(low.as_str(), "flask")
                || contains_sub(low.as_str(), "django") || contains_sub(low.as_str(), "fastapi") {
                api = true;
            }
        }
        proof {
            let stn = HeaderSt { server: opt_view(server), ctype: opt_view(ctype), api: api };
            assert(stn == header_step(st0, lv[i as int]));
        }
        i = i + 1;
    }
    let body = crate::text::to_lower(resp);
    let bs = body.as_str();
    if contains_sub(bs, "<!doctype html") || contains_sub(bs, "<html") {
        if contains_sub(bs, "react") || contains_sub(bs, "vue") || contains_sub(bs, "angular")
            || contains_sub(bs, "next") || contains_sub(bs, "vite") {
            api = false;
        }
    } else if starts_with(bs, "{") || contains_sub(bs, "\"data\":") || contains_sub(
        bs,
        "\"error\":",
    ) {
        api = true;
    }
    let mut service = if api {
        String::from_str("API (")
    } else {
        String::from_str("Web (")
    };
    push_dec(&mut service, port as u32);
    service.append(")");
    let service_type = if api {
        String::from_str("api")
    } else {
        String::from_str("web")
    };
    let r = ServiceInfo { port, service, service_type, server, content_type: ctype };
    proof {
        assert(r@.service =~= classify_spec(port, resp@).service);
    }
    r
}

/// An HTML page reads as web: whenever the header scan does not call the
/// service an API and the lowered response holds an HTML document marker,
/// the classification is `web` with the matching label, and the scanned
/// `Server` and `Content-Type` values are carried through unchanged.
pub proof fn lemma_classify_web(port: u16, resp: Seq<char>)
    requires
        !header_scan(
            lines_spec(resp),
            0,
            HeaderSt { server: None, ctype: None, api: false },
        ).api,
        contains_sub_spec(lower_spec(resp), "<!doctype html"@) || contains_sub_spec(
            lower_spec(resp),
            "<html"@,
        ),
    ensures
        classify_spec(port, resp).service_type == "web"@,
        classify_spec(port, resp).service == "Web ("@ + dec_digits(port as nat) + ")"@,
        classify_spec(port, resp).server == header_scan(
            lines_spec(resp),
            0,
            HeaderSt { server: None, ctype: None, api: false },
        ).server,
        classify_spec(port, resp).content_type == header_scan(
            lines_spec(resp),
            0,
            HeaderSt { server: None, ctype: None, api: false },
        ).ctype,
{
}

/// What the service probe reports: the response classification when the
/// port is HTTP-style and an exchange was captured, else the table label
/// (`Unknown` when the table has none) and the port-based category.
pub open spec fn detect_service_spec(port: u16, resp: Option<Seq<char>>) -> ServiceV {
    if is_http_port_spec(port) && resp is Some {
        classify_spec(port, resp.unwrap())
    } else {
        ServiceV {
            port: port,
            service: match service_name_spec(port) {
                Some(n) => n,
                None => "Unknown"@,
            },
            service_type: infer_service_type_spec(port),
            server: None,
            content_type: None,
        }
    }
}

/// Classifies a port, from a captured HTTP response when there is one.
/// The caller probes only HTTP-style ports and hands in `None` when the
/// exchange failed; classification then falls back to the port table.
pub fn detect_service_type(port: u16, http_response: Option<&str>) -> (r: ServiceInfo)
    ensures
        r@ == detect_service_spec(
            port,
            match http_response {
                Some(t) => Some(t@),
                None => None,
            },
        ),
{
    if is_http_port(port) {
        match http_response {
            Some(t) => {
                return classify_http_response(port, t);
            },
            None => {},
        }
    }
    let service: String = match get_service_name(port) {
        Some(n) => n,
        None => String::from_str("Unknown"),
    };
    let service_type = infer_service_type(port);
    ServiceInfo { port, service, service_type, server: None, content_type: None }
}

} // verus!
