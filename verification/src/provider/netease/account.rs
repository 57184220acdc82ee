//! The session: a cookie that lives in memory.

use vstd::prelude::*;

verus! {

/// A session with the provider.
#[derive(Clone, Debug)]
pub struct Session {
    cookie: String,
    logged_in: bool,
    vip: bool,
}

/// What a [`Session`] says.
#[verifier::ext_equal]
pub struct SessionView {
    pub cookie: Seq<char>,
    pub logged_in: bool,
    pub vip: bool,
}

impl View for Session {
    type V = SessionView;

    closed spec fn view(&self) -> SessionView {
        SessionView { cookie: self.cookie@, logged_in: self.logged_in, vip: self.vip }
    }
}

impl SessionView {
    /// Nobody is logged in.
    pub open spec fn anonymous() -> SessionView {
        SessionView { cookie: Seq::empty(), logged_in: false, vip: false }
    }

    /// The session that a cookie gives.
    pub open spec fn of_cookie(cookie: Seq<char>) -> SessionView {
        SessionView { cookie, logged_in: cookie.len() > 0, vip: false }
    }
}

impl Default for Session {
    fn default() -> (r: Self)
        ensures
            r@ == SessionView::anonymous(),
    {
        let r = Session { cookie: String::new(), logged_in: false, vip: false };
        assert(r@ =~= SessionView::anonymous());
        r
    }
}

impl Session {
    pub fn anonymous() -> (r: Self)
        ensures
            r@ == SessionView::anonymous(),
    {
        Session::default()
    }

    pub fn from_cookie(cookie: &str) -> (r: Self)
        ensures
            r@ == SessionView::of_cookie(cookie@),
    {
        let r = Session { cookie: cookie.to_owned(), logged_in: !cookie.is_empty(), vip: false };
        assert(r@ =~= SessionView::of_cookie(cookie@));
        r
    }

    /// The cookie header to send, where there is a cookie.
    pub fn cookie_header(&self) -> (r: Option<String>)
        ensures
            match r {
                Some(c) => c@ == self@.cookie && c@.len() > 0,
                None => self@.cookie.len() == 0,
            },
    {
        if self.cookie.as_str().is_empty() {
            None
        } else {
            Some(self.cookie.as_str().to_owned())
        }
    }

    pub fn is_logged_in(&self) -> (r: bool)
        ensures
            r == self@.logged_in,
    {
        self.logged_in
    }

    pub fn is_vip(&self) -> (r: bool)
        ensures
            r == self@.vip,
    {
        self.vip
    }

    /// Takes the cookie that the user typed in or that a login gave.
    pub fn load(&mut self, cookie: &str)
        ensures
            final(self)@ == SessionView::of_cookie(cookie@),
    {
        *self = Session::from_cookie(cookie);
    }

    pub fn clear(&mut self)
        ensures
            final(self)@ == SessionView::anonymous(),
    {
        *self = Session::anonymous();
    }
}

/// An empty cookie is no session.
pub proof fn law_empty_cookie_is_anonymous()
    ensures
        SessionView::of_cookie(Seq::empty()) == SessionView::anonymous(),
{
}

/// A session with a cookie is logged in and sends that cookie; one without is
/// not and sends none.
pub proof fn law_session_sends_its_cookie(
    cookie: &str,
    s: Session,
    sent: Option<String>,
    logged_in: bool,
    vip: bool,
)
    requires
        call_ensures(Session::from_cookie, (cookie,), s),
        call_ensures(Session::cookie_header, (&s,), sent),
        call_ensures(Session::is_logged_in, (&s,), logged_in),
        call_ensures(Session::is_vip, (&s,), vip),
    ensures
        logged_in <==> cookie@.len() > 0,
        sent is Some <==> cookie@.len() > 0,
        sent matches Some(c) ==> c@ == cookie@,
        !vip,
{
}

/// A session takes the cookie it is given, and forgets it when it is cleared.
pub proof fn law_session_forgets(a: &mut Session, cookie: &str, b: &mut Session)
    requires
        call_ensures(Session::load, (a, cookie), ()),
        call_ensures(Session::clear, (b,), ()),
    ensures
        final(a)@.cookie == cookie@,
        final(a)@.logged_in == (cookie@.len() > 0),
        final(b)@.cookie.len() == 0,
        !final(b)@.logged_in,
        !final(b)@.vip,
{
}

} // verus!
