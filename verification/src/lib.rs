//! A verified core for a JMAP webmail client: redirect resolution,
//! session discovery, method-call transport framing, mail operations,
//! and an in-memory session store.

mod client;
mod config;
mod discovery;
mod error;
mod json;
mod mail;
mod session;
mod session_doc;
mod templates;
mod text;
mod transport;
mod url;

pub use config::{Config, JmapConfig, ServerConfig};
pub use client::{auth_header, decode_email_get, decode_email_query, decode_mailboxes, finish_discovery, JmapClient};
pub use discovery::{Discovery, DiscoveryStep, FetchOutcome, HttpReply};
pub use error::{JmapError, JmapErrorView};
pub use json::{Json, JsonView};
pub use mail::{missing_ids, Email, EmailAddress, Mailbox};
pub use session::{clear_session_cookie, make_session_cookie, parse_session_cookie, Session, SessionStore};
pub use session_doc::{SessionDescriptor, MAIL_CAPABILITY};
pub use templates::{base_page, email_list, email_list_rows, email_view, error_fragment, format_address_short, format_addresses, format_date, get_email_body, html_escape, login_page, mailbox_list, main_page, truncate};
pub use text::{truncate_str, urlencoding_decode};
pub use transport::MethodCall;
pub use url::resolve_redirect;
