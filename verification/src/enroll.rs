//! Registering a client and enrolling its key: what is sent to the API, what
//! is asked of the user, and the configuration that comes of it.
//!
//! The flows below decide; their caller acts. Each step takes what happened
//! and says what to do next.

use vstd::prelude::*;
use vstd::string::*;

use crate::api::{
    enroll_key, enrolls, error_messages, is_yes, law_enrollment_request,
    law_registration_request, register, registers, AccountData, ApiError, ApiRequest, DeviceUpdate, Registration, INVALID_PUBLIC_KEY,
};
use crate::cli::{configured_key, EnrollArgs, RegisterOptions};
use crate::codec::{base64_encode, base64_text};
use crate::config::{
    free_of_brackets, law_v4_endpoint_is_bare, law_v6_endpoint_is_bare, parse_endpoint_v4,
    parse_endpoint_v6, without_brackets, without_closed_zero_ports, without_zero_port, Config,
    DEFAULT_ENDPOINT_H2_V4,
};
use crate::crypto::{
    decode_private_key, generate_ec_keypair, key_pair, law_private_key_roundtrip, pkcs8_key,
    public_key_of, KeyError,
};
use crate::handshake::header_texts;
use crate::text::{opt_text, trim_text};

verus! {

/// Whether a configuration is made of what the API says of a client and of
/// the client's private key.
pub open spec fn config_from(cfg: Config, private_der: Seq<u8>, data: AccountData) -> bool {
    let peer = data.config.peers@[0];
    &&& cfg.private_key@ == base64_text(private_der)
    &&& cfg.endpoint_v4@ == without_zero_port(peer.endpoint.v4@)
    &&& cfg.endpoint_v6@ == without_closed_zero_ports(without_brackets(peer.endpoint.v6@))
    &&& cfg.endpoint_pub_key@ == peer.public_key@
    &&& cfg.license@ == data.account.license@
    &&& cfg.id@ == data.id@
    &&& cfg.ipv4@ == data.config.interface.addresses.v4@
    &&& cfg.ipv6@ == data.config.interface.addresses.v6@
}

/// Whether a configuration is the one of a client whose key was enrolled. The
/// endpoints for HTTP/2 and the token are those that the client had, or the
/// default endpoint.
pub open spec fn enrolled_from(
    cfg: Config,
    existing: Config,
    private_der: Seq<u8>,
    data: AccountData,
) -> bool {
    &&& config_from(cfg, private_der, data)
    &&& cfg.endpoint_h2_v4@ == (if existing.endpoint_h2_v4@.len() == 0 {
        DEFAULT_ENDPOINT_H2_V4@
    } else {
        existing.endpoint_h2_v4@
    })
    &&& cfg.endpoint_h2_v6@ == existing.endpoint_h2_v6@
    &&& cfg.access_token@ == existing.access_token@
}

/// Whether a configuration is the one of a client that was registered.
pub open spec fn registered_from(
    cfg: Config,
    token: Seq<char>,
    private_der: Seq<u8>,
    data: AccountData,
) -> bool {
    &&& config_from(cfg, private_der, data)
    &&& cfg.endpoint_h2_v4@ == DEFAULT_ENDPOINT_H2_V4@
    &&& cfg.endpoint_h2_v6@ == ""@
    &&& cfg.access_token@ == token
}

fn make_config(
    endpoint_h2_v4: String,
    endpoint_h2_v6: String,
    access_token: String,
    private_der: &[u8],
    data: &AccountData,
) -> (cfg: Config)
    requires
        data.config.peers@.len() > 0,
        private_der@.len() <= isize::MAX / 2,
    ensures
        config_from(cfg, private_der@, *data),
        cfg.endpoint_h2_v4@ == endpoint_h2_v4@,
        cfg.endpoint_h2_v6@ == endpoint_h2_v6@,
        cfg.access_token@ == access_token@,
{
    let peer = &data.config.peers[0];
    Config {
        private_key: base64_encode(private_der),
        endpoint_v4: parse_endpoint_v4(peer.endpoint.v4.as_str()),
        endpoint_v6: parse_endpoint_v6(peer.endpoint.v6.as_str()),
        endpoint_h2_v4,
        endpoint_h2_v6,
        endpoint_pub_key: peer.public_key.clone(),
        license: data.account.license.clone(),
        id: data.id.clone(),
        access_token,
        ipv4: data.config.interface.addresses.v4.clone(),
        ipv6: data.config.interface.addresses.v6.clone(),
    }
}

/// Makes the configuration of a client whose key was enrolled.
pub fn enrolled_config(existing: &Config, private_der: &[u8], updated: &AccountData) -> (r: Result<
    Config,
    String,
>)
    requires
        private_der@.len() <= isize::MAX / 2,
    ensures
        match r {
            Ok(cfg) => updated.config.peers@.len() > 0 && enrolled_from(
                cfg,
                *existing,
                private_der@,
                *updated,
            ),
            Err(text) => updated.config.peers@.len() == 0 && text@
                == "missing peer in enroll response"@,
        },
        r matches Ok(cfg) ==> {
            &&& cfg.id@ == updated.id@
            &&& cfg.license@ == updated.account.license@
            &&& cfg.ipv4@ == updated.config.interface.addresses.v4@
            &&& cfg.ipv6@ == updated.config.interface.addresses.v6@
            &&& cfg.endpoint_pub_key@ == updated.config.peers@[0].public_key@
            &&& cfg.private_key@ == base64_text(private_der@)
            &&& cfg.access_token@ == existing.access_token@
        },
{
    if updated.config.peers.len() == 0 {
        return Err("missing peer in enroll response".to_owned());
    }
    let endpoint_h2_v4 = if existing.endpoint_h2_v4.as_str().is_empty() {
        DEFAULT_ENDPOINT_H2_V4.to_owned()
    } else {
        existing.endpoint_h2_v4.clone()
    };
    Ok(
        make_config(
            endpoint_h2_v4,
            existing.endpoint_h2_v6.clone(),
            existing.access_token.clone(),
            private_der,
            updated,
        ),
    )
}

/// Makes the configuration of a client that was registered.
pub fn registered_config(token: &str, private_der: &[u8], updated: &AccountData) -> (r: Result<
    Config,
    String,
>)
    requires
        private_der@.len() <= isize::MAX / 2,
    ensures
        match r {
            Ok(cfg) => updated.config.peers@.len() > 0 && registered_from(
                cfg,
                token@,
                private_der@,
                *updated,
            ),
            Err(text) => updated.config.peers@.len() == 0 && text@
                == "missing peer in registration response"@,
        },
        r matches Ok(cfg) ==> {
            &&& cfg.id@ == updated.id@
            &&& cfg.license@ == updated.account.license@
            &&& cfg.ipv4@ == updated.config.interface.addresses.v4@
            &&& cfg.ipv6@ == updated.config.interface.addresses.v6@
            &&& cfg.endpoint_pub_key@ == updated.config.peers@[0].public_key@
            &&& cfg.private_key@ == base64_text(private_der@)
            &&& cfg.access_token@ == token@
        },
{
    if updated.config.peers.len() == 0 {
        return Err("missing peer in registration response".to_owned());
    }
    Ok(
        make_config(
            DEFAULT_ENDPOINT_H2_V4.to_owned(),
            "".to_owned(),
            token.to_owned(),
            private_der,
            updated,
        ),
    )
}

/// The text of an optional string, or nothing.
pub open spec fn text_or_empty(text: Option<Seq<char>>) -> Seq<char> {
    match text {
        Some(text) => text,
        None => ""@,
    }
}

fn or_empty(text: &Option<String>) -> (out: String)
    ensures
        out@ == text_or_empty(opt_text(*text)),
{
    match text {
        Some(text) => text.clone(),
        None => "".to_owned(),
    }
}

/// How far the enrollment of a key is.
#[derive(Clone, Copy, Debug, PartialEq, Eq, Structural)]
pub enum EnrollStage {
    /// The key was sent.
    Sent,
    /// The user is asked whether to make another key.
    Asking,
    /// Another key was sent.
    SentAgain,
    /// Nothing more.
    Over,
}

/// What happened to an enrollment.
pub enum EnrollEvent {
    /// The API took the key, or refused.
    Replied(Result<AccountData, ApiError>),
    /// The user answered.
    Answered(String),
}

/// What an enrollment does next.
pub enum EnrollAction {
    /// Send a key to the API.
    Send(ApiRequest, DeviceUpdate),
    /// Ask the user whether to make another key.
    Ask,
    /// Save the configuration.
    Save(Config),
    /// Give up, with a reason.
    Fail(String),
}

/// Whether an event can come in a stage of an enrollment.
pub open spec fn enroll_fits(stage: EnrollStage, event: EnrollEvent) -> bool {
    match event {
        EnrollEvent::Replied(r) => (stage == EnrollStage::Sent || stage == EnrollStage::SentAgain)
            && (r matches Err(err) ==> 100 <= err.status <= 999),
        EnrollEvent::Answered(_) => stage == EnrollStage::Asking,
    }
}

/// The enrollment of a key for a client that is registered.
pub struct EnrollFlow {
    existing: Config,
    name: String,
    private_der: Vec<u8>,
    public_der: Vec<u8>,
    stage: EnrollStage,
}

impl EnrollFlow {
    /// The key pair at hand is one.
    pub open spec fn wf(&self) -> bool {
        key_pair(self.private_der(), self.public_der())
    }

    /// The configuration that the client has.
    pub closed spec fn existing(&self) -> Config {
        self.existing
    }

    /// The name to give to the device.
    pub closed spec fn name(&self) -> Seq<char> {
        self.name@
    }

    /// The private key at hand.
    pub closed spec fn private_der(&self) -> Seq<u8> {
        self.private_der@
    }

    /// The public key at hand, which is the one that was sent last.
    pub closed spec fn public_der(&self) -> Seq<u8> {
        self.public_der@
    }

    /// How far the enrollment is.
    pub closed spec fn stage(&self) -> EnrollStage {
        self.stage
    }

    /// Whether an action sends the public key at hand.
    pub open spec fn sends(&self, action: EnrollAction) -> bool {
        action matches EnrollAction::Send(request, body) && enrolls(
            request,
            body,
            self.existing().id@,
            self.existing().access_token@,
            self.public_der(),
            self.name(),
        )
    }

    fn send(&self) -> (r: EnrollAction)
        requires
            self.wf(),
        ensures
            self.sends(r),
    {
        let (request, body) = enroll_key(
            self.existing.id.as_str(),
            self.existing.access_token.as_str(),
            self.public_der.as_slice(),
            self.name.as_str(),
        );
        EnrollAction::Send(request, body)
    }

    /// Begins an enrollment: the key of the configuration is sent, or a new
    /// one where that is asked for.
    pub fn start(existing: Config, args: &EnrollArgs) -> (r: Result<
        (Self, EnrollAction),
        KeyError,
    >)
        ensures
            r matches Ok((flow, action)) ==> {
                &&& flow.wf()
                &&& key_pair(flow.private_der(), flow.public_der())
                &&& flow.existing() == existing
                &&& flow.name() == text_or_empty(opt_text(args.name))
                &&& flow.stage() == EnrollStage::Sent
                &&& flow.sends(action)
            },
            !args.regen_key ==> match configured_key(existing) {
                Ok(key) => r matches Ok((flow, _)) && flow.private_der() == key,
                Err(err) => r matches Err(e) && e == err,
            },
            args.regen_key ==> (r matches Err(err) ==> err == KeyError::MarshalPrivate),
    {
        let pair = if args.regen_key {
            generate_ec_keypair()
        } else {
            match decode_private_key(existing.private_key.as_str()) {
                Ok(key) => key.into_pair(),
                Err(err) => Err(err),
            }
        };
        EnrollFlow::start_with(existing, &args.name, pair)
    }

    /// Begins an enrollment with a key pair, if there is one: its public key
    /// is sent.
    pub fn start_with(
        existing: Config,
        name: &Option<String>,
        pair: Result<(Vec<u8>, Vec<u8>), KeyError>,
    ) -> (r: Result<(Self, EnrollAction), KeyError>)
        requires
            pair matches Ok((private_der, public_der)) ==> key_pair(private_der@, public_der@),
        ensures
            match pair {
                Ok((private_der, public_der)) => r matches Ok((flow, action)) && {
                    &&& flow.wf()
                    &&& key_pair(flow.private_der(), flow.public_der())
                    &&& flow.existing() == existing
                    &&& flow.name() == text_or_empty(opt_text(*name))
                    &&& flow.private_der() == private_der@
                    &&& flow.public_der() == public_der@
                    &&& flow.stage() == EnrollStage::Sent
                    &&& flow.sends(action)
                },
                Err(err) => r matches Err(e) && e == err,
            },
    {
        match pair {
            Ok((private_der, public_der)) => {
                let flow = EnrollFlow {
                    existing,
                    name: or_empty(name),
                    private_der,
                    public_der,
                    stage: EnrollStage::Sent,
                };
                let action = flow.send();
                Ok((flow, action))
            },
            Err(err) => Err(err),
        }
    }

    /// Goes on with another key pair, if there is one: its public key is sent
    /// in place of the one that was refused.
    pub fn resend(&mut self, pair: Result<(Vec<u8>, Vec<u8>), KeyError>) -> (r: EnrollAction)
        requires
            old(self).wf(),
            pair matches Ok((private_der, public_der)) ==> key_pair(private_der@, public_der@),
        ensures
            final(self).wf(),
            key_pair(final(self).private_der(), final(self).public_der()),
            final(self).existing() == old(self).existing(),
            final(self).name() == old(self).name(),
            match pair {
                Ok((private_der, public_der)) => {
                    &&& final(self).private_der() == private_der@
                    &&& final(self).public_der() == public_der@
                    &&& final(self).stage() == EnrollStage::SentAgain
                    &&& final(self).sends(r)
                },
                Err(err) => {
                    &&& r matches EnrollAction::Fail(text) && text@ == err.text()
                    &&& final(self).private_der() == old(self).private_der()
                    &&& final(self).public_der() == old(self).public_der()
                    &&& final(self).stage() == EnrollStage::Over
                },
            },
    {
        match pair {
            Ok((private_der, public_der)) => {
                self.private_der = private_der;
                self.public_der = public_der;
                self.stage = EnrollStage::SentAgain;
                self.send()
            },
            Err(err) => {
                self.stage = EnrollStage::Over;
                EnrollAction::Fail(err.message().to_owned())
            },
        }
    }

    /// Takes what happened and says what the enrollment does next. A key that
    /// the API does not take is replaced once, if the user agrees.
    pub fn step(&mut self, event: EnrollEvent) -> (r: EnrollAction)
        requires
            old(self).wf(),
            enroll_fits(old(self).stage(), event),
        ensures
            final(self).wf(),
            key_pair(final(self).private_der(), final(self).public_der()),
            final(self).existing() == old(self).existing(),
            final(self).name() == old(self).name(),
            event is Replied ==> final(self).private_der() == old(self).private_der()
                && final(self).public_der() == old(self).public_der(),
            match event {
                EnrollEvent::Replied(Ok(data)) => final(self).stage() == EnrollStage::Over
                    && if data.config.peers@.len() == 0 {
                    r matches EnrollAction::Fail(text) && text@
                        == "missing peer in enroll response"@
                } else {
                    r matches EnrollAction::Save(cfg) && enrolled_from(
                        cfg,
                        old(self).existing(),
                        old(self).private_der(),
                        data,
                    )
                },
                EnrollEvent::Replied(Err(err)) => if old(self).stage() == EnrollStage::Sent
                    && error_messages(err.body.errors@).contains(INVALID_PUBLIC_KEY@) {
                    r is Ask && final(self).stage() == EnrollStage::Asking
                } else {
                    (r matches EnrollAction::Fail(text) && text@ == err.text())
                        && final(self).stage() == EnrollStage::Over
                },
                EnrollEvent::Answered(answer) => if trim_text(answer@) != "y"@ {
                    (r matches EnrollAction::Fail(text) && text@ == "enrollment aborted"@)
                        && final(self).stage() == EnrollStage::Over
                } else {
                    ||| final(self).sends(r) && final(self).stage() == EnrollStage::SentAgain
                    ||| (r matches EnrollAction::Fail(text) && text@
                        == KeyError::MarshalPrivate.text()) && final(self).stage()
                        == EnrollStage::Over
                },
            },
    {
        let first = self.stage == EnrollStage::Sent;
        self.stage = EnrollStage::Over;
        match event {
            EnrollEvent::Replied(Ok(data)) => match enrolled_config(
                &self.existing,
                self.private_der.as_slice(),
                &data,
            ) {
                Ok(cfg) => EnrollAction::Save(cfg),
                Err(text) => EnrollAction::Fail(text),
            },
            EnrollEvent::Replied(Err(err)) => {
                if first && err.body.has_error_message(INVALID_PUBLIC_KEY) {
                    self.stage = EnrollStage::Asking;
                    return EnrollAction::Ask;
                }
                EnrollAction::Fail(err.message())
            },
            EnrollEvent::Answered(answer) => {
                if !is_yes(answer.as_str()) {
                    return EnrollAction::Fail("enrollment aborted".to_owned());
                }
                self.resend(generate_ec_keypair())
            },
        }
    }
}

/// How far the registration of a client is.
#[derive(Clone, Copy, Debug, PartialEq, Eq, Structural)]
pub enum RegisterStage {
    /// The user is asked to accept the terms of service.
    Asking,
    /// The registration was sent.
    Registering,
    /// The client's key was sent.
    Enrolling,
    /// Nothing more.
    Over,
}

/// What happened to a registration.
pub enum RegisterEvent {
    /// The user answered.
    Answered(String),
    /// The API registered the client, or did not, with a reason.
    Registered(Result<AccountData, String>),
    /// The API took the key, or refused.
    Enrolled(Result<AccountData, ApiError>),
}

/// What a registration does next.
pub enum RegisterAction {
    /// Ask the user to accept the terms of service.
    Ask,
    /// Send the registration to the API.
    Register(ApiRequest, Registration),
    /// Send the client's key to the API.
    Enroll(ApiRequest, DeviceUpdate),
    /// Save the configuration.
    Save(Config),
    /// Give up, with a reason.
    Fail(String),
}

/// Whether an event can come in a stage of a registration.
pub open spec fn register_fits(stage: RegisterStage, event: RegisterEvent) -> bool {
    match event {
        RegisterEvent::Answered(_) => stage == RegisterStage::Asking,
        RegisterEvent::Registered(_) => stage == RegisterStage::Registering,
        RegisterEvent::Enrolled(r) => stage == RegisterStage::Enrolling && (r matches Err(err)
            ==> 100 <= err.status <= 999),
    }
}

/// The registration of a client.
pub struct RegisterFlow {
    options: RegisterOptions,
    token: String,
    private_der: Vec<u8>,
    public_der: Vec<u8>,
    stage: RegisterStage,
}

impl RegisterFlow {
    /// Once the key is sent, the key pair at hand is one.
    pub open spec fn wf(&self) -> bool {
        self.stage() == RegisterStage::Enrolling ==> key_pair(
            self.private_der(),
            self.public_der(),
        )
    }

    /// How the client is to be registered.
    pub closed spec fn options(&self) -> RegisterOptions {
        self.options
    }

    /// The token that the API gave to the client.
    pub closed spec fn token(&self) -> Seq<char> {
        self.token@
    }

    /// The private key at hand.
    pub closed spec fn private_der(&self) -> Seq<u8> {
        self.private_der@
    }

    /// The public key at hand.
    pub closed spec fn public_der(&self) -> Seq<u8> {
        self.public_der@
    }

    /// How far the registration is.
    pub closed spec fn stage(&self) -> RegisterStage {
        self.stage
    }

    /// Whether an action sends the registration.
    pub open spec fn sends_registration(&self, action: RegisterAction) -> bool {
        action matches RegisterAction::Register(request, body) && registers(
            request,
            body,
            self.options().model@,
            self.options().locale@,
            opt_text(self.options().jwt),
        )
    }

    fn send_registration(&self) -> (r: RegisterAction)
        ensures
            self.sends_registration(r),
    {
        let jwt = match &self.options.jwt {
            Some(token) => Some(token.as_str()),
            None => None,
        };
        let (request, body) = register(
            self.options.model.as_str(),
            self.options.locale.as_str(),
            jwt,
        );
        RegisterAction::Register(request, body)
    }

    /// Begins a registration: the user is asked to accept the terms of
    /// service, unless that has been done.
    pub fn start(options: RegisterOptions) -> (r: (Self, RegisterAction))
        ensures
            r.0.wf(),
            r.0.options() == options,
            if options.accept_tos {
                r.0.stage() == RegisterStage::Registering && r.0.sends_registration(r.1)
            } else {
                r.0.stage() == RegisterStage::Asking && r.1 is Ask
            },
    {
        let accepted = options.accept_tos;
        let flow = RegisterFlow {
            options,
            token: "".to_owned(),
            private_der: Vec::new(),
            public_der: Vec::new(),
            stage: if accepted {
                RegisterStage::Registering
            } else {
                RegisterStage::Asking
            },
        };
        let action = if accepted {
            flow.send_registration()
        } else {
            RegisterAction::Ask
        };
        (flow, action)
    }

    /// Goes on with the account that the API gave and with a key pair, if
    /// there is one: its public key is enrolled.
    pub fn enroll_with(
        &mut self,
        account: &AccountData,
        pair: Result<(Vec<u8>, Vec<u8>), KeyError>,
    ) -> (r: RegisterAction)
        requires
            pair matches Ok((private_der, public_der)) ==> key_pair(private_der@, public_der@),
        ensures
            final(self).wf(),
            final(self).options() == old(self).options(),
            match pair {
                Ok((private_der, public_der)) => {
                    &&& final(self).token() == text_or_empty(opt_text(account.token))
                    &&& final(self).private_der() == private_der@
                    &&& final(self).public_der() == public_der@
                    &&& final(self).stage() == RegisterStage::Enrolling
                    &&& r matches RegisterAction::Enroll(request, body) && enrolls(
                        request,
                        body,
                        account.id@,
                        text_or_empty(opt_text(account.token)),
                        public_der@,
                        text_or_empty(opt_text(old(self).options().name)),
                    )
                },
                Err(err) => {
                    &&& r matches RegisterAction::Fail(text) && text@ == err.text()
                    &&& final(self).stage() == RegisterStage::Over
                },
            },
    {
        match pair {
            Ok((private_der, public_der)) => {
                self.token = or_empty(&account.token);
                self.private_der = private_der;
                self.public_der = public_der;
                self.stage = RegisterStage::Enrolling;
                let name = or_empty(&self.options.name);
                let (request, body) = enroll_key(
                    account.id.as_str(),
                    self.token.as_str(),
                    self.public_der.as_slice(),
                    name.as_str(),
                );
                RegisterAction::Enroll(request, body)
            },
            Err(err) => {
                self.stage = RegisterStage::Over;
                RegisterAction::Fail(err.message().to_owned())
            },
        }
    }

    /// Takes what happened and says what the registration does next. A client
    /// that is registered gets a new key, which is enrolled.
    pub fn step(&mut self, event: RegisterEvent) -> (r: RegisterAction)
        requires
            old(self).wf(),
            register_fits(old(self).stage(), event),
        ensures
            final(self).wf(),
            final(self).options() == old(self).options(),
            event is Enrolled ==> {
                &&& final(self).token() == old(self).token()
                &&& final(self).private_der() == old(self).private_der()
                &&& final(self).public_der() == old(self).public_der()
                &&& key_pair(final(self).private_der(), final(self).public_der())
            },
            match event {
                RegisterEvent::Answered(answer) => if trim_text(answer@) == "y"@ {
                    final(self).sends_registration(r) && final(self).stage()
                        == RegisterStage::Registering
                } else {
                    (r matches RegisterAction::Fail(text) && text@ == "user did not accept TOS"@)
                        && final(self).stage() == RegisterStage::Over
                },
                RegisterEvent::Registered(Err(reason)) => r == RegisterAction::Fail(reason)
                    && final(self).stage() == RegisterStage::Over,
                RegisterEvent::Registered(Ok(account)) => {
                    ||| {
                        &&& final(self).stage() == RegisterStage::Enrolling
                        &&& final(self).token() == text_or_empty(opt_text(account.token))
                        &&& r matches RegisterAction::Enroll(request, body) && enrolls(
                            request,
                            body,
                            account.id@,
                            final(self).token(),
                            final(self).public_der(),
                            text_or_empty(opt_text(old(self).options().name)),
                        )
                        &&& key_pair(final(self).private_der(), final(self).public_der())
                    }
                    ||| (r matches RegisterAction::Fail(text) && text@
                        == KeyError::MarshalPrivate.text()) && final(self).stage()
                        == RegisterStage::Over
                },
                RegisterEvent::Enrolled(Err(err)) => (r matches RegisterAction::Fail(text) && text@
                    == err.text()) && final(self).stage() == RegisterStage::Over,
                RegisterEvent::Enrolled(Ok(data)) => final(self).stage() == RegisterStage::Over
                    && if data.config.peers@.len() == 0 {
                    r matches RegisterAction::Fail(text) && text@
                        == "missing peer in registration response"@
                } else {
                    r matches RegisterAction::Save(cfg) && registered_from(
                        cfg,
                        old(self).token(),
                        old(self).private_der(),
                        data,
                    )
                },
            },
    {
        self.stage = RegisterStage::Over;
        match event {
            RegisterEvent::Answered(answer) => {
                if !is_yes(answer.as_str()) {
                    return RegisterAction::Fail("user did not accept TOS".to_owned());
                }
                self.stage = RegisterStage::Registering;
                self.send_registration()
            },
            RegisterEvent::Registered(Err(reason)) => RegisterAction::Fail(reason),
            RegisterEvent::Registered(Ok(account)) => self.enroll_with(
                &account,
                generate_ec_keypair(),
            ),
            RegisterEvent::Enrolled(Ok(data)) => match registered_config(
                self.token.as_str(),
                self.private_der.as_slice(),
                &data,
            ) {
                Ok(cfg) => RegisterAction::Save(cfg),
                Err(text) => RegisterAction::Fail(text),
            },
            RegisterEvent::Enrolled(Err(err)) => RegisterAction::Fail(err.message()),
        }
    }
}

/// Whether a registration may begin: there is no configuration yet, or the
/// user agrees to overwrite it.
pub fn may_overwrite(present: bool, answer: &str) -> (r: bool)
    ensures
        r == (!present || trim_text(answer@) == "y"@),
{
    !present || is_yes(answer)
}

/// Whether a client is registered without being asked: only where there is no
/// configuration file yet.
pub fn should_auto_register(file_exists: bool) -> (r: bool)
    ensures
        r == !file_exists,
{
    !file_exists
}

/// The key that a configuration was made with is read from it again, and its
/// public part is the one that the API was sent.
pub proof fn law_saved_key_is_the_enrolled_one(
    cfg: Config,
    private_der: Seq<u8>,
    public_der: Seq<u8>,
    data: AccountData,
)
    requires
        config_from(cfg, private_der, data),
        key_pair(private_der, public_der),
    ensures
        configured_key(cfg) == Ok::<Seq<u8>, KeyError>(private_der),
        public_key_of(private_der) == Some(public_der),
{
    law_private_key_roundtrip(private_der);
}

/// A registration saves each part of the API's answer in its own place, with
/// the client's key, the token that the API gave and the default endpoint for
/// HTTP/2.
pub proof fn law_registration_saves_the_answer(
    cfg: Config,
    token: Seq<char>,
    private_der: Seq<u8>,
    data: AccountData,
)
    requires
        data.config.peers@.len() > 0,
        registered_from(cfg, token, private_der, data),
    ensures
        cfg.id@ == data.id@,
        cfg.license@ == data.account.license@,
        cfg.ipv4@ == data.config.interface.addresses.v4@,
        cfg.ipv6@ == data.config.interface.addresses.v6@,
        cfg.endpoint_pub_key@ == data.config.peers@[0].public_key@,
        cfg.access_token@ == token,
        cfg.endpoint_h2_v4@ == "162.159.198.2"@,
        cfg.endpoint_h2_v6@.len() == 0,
        configured_key(cfg) == Ok::<Seq<u8>, KeyError>(private_der) <== pkcs8_key(private_der)
            == Some(private_der),
        forall|host: Seq<char>|
            data.config.peers@[0].endpoint.v4@ == host + ":0"@ ==> cfg.endpoint_v4@ == host,
        forall|host: Seq<char>|
            free_of_brackets(host) && data.config.peers@[0].endpoint.v6@ == "["@ + host + "]:0"@
                ==> cfg.endpoint_v6@ == host,
{
    reveal_strlit("");
    if pkcs8_key(private_der) == Some(private_der) {
        law_private_key_roundtrip(private_der);
    }
    lemma_endpoints_are_bare(cfg, private_der, data);
}

/// An enrollment saves each part of the API's answer in its own place, and
/// keeps the token and the HTTP/2 endpoints that the client had.
pub proof fn law_enrollment_saves_the_answer(
    cfg: Config,
    existing: Config,
    private_der: Seq<u8>,
    data: AccountData,
)
    requires
        data.config.peers@.len() > 0,
        enrolled_from(cfg, existing, private_der, data),
    ensures
        cfg.id@ == data.id@,
        cfg.license@ == data.account.license@,
        cfg.ipv4@ == data.config.interface.addresses.v4@,
        cfg.ipv6@ == data.config.interface.addresses.v6@,
        cfg.endpoint_pub_key@ == data.config.peers@[0].public_key@,
        cfg.access_token@ == existing.access_token@,
        cfg.endpoint_h2_v6@ == existing.endpoint_h2_v6@,
        existing.endpoint_h2_v4@.len() > 0 ==> cfg.endpoint_h2_v4@ == existing.endpoint_h2_v4@,
        existing.endpoint_h2_v4@.len() == 0 ==> cfg.endpoint_h2_v4@ == "162.159.198.2"@,
        configured_key(cfg) == Ok::<Seq<u8>, KeyError>(private_der) <== pkcs8_key(private_der)
            == Some(private_der),
        forall|host: Seq<char>|
            data.config.peers@[0].endpoint.v4@ == host + ":0"@ ==> cfg.endpoint_v4@ == host,
        forall|host: Seq<char>|
            free_of_brackets(host) && data.config.peers@[0].endpoint.v6@ == "["@ + host + "]:0"@
                ==> cfg.endpoint_v6@ == host,
{
    if pkcs8_key(private_der) == Some(private_der) {
        law_private_key_roundtrip(private_der);
    }
    lemma_endpoints_are_bare(cfg, private_der, data);
}

proof fn lemma_endpoints_are_bare(cfg: Config, private_der: Seq<u8>, data: AccountData)
    requires
        config_from(cfg, private_der, data),
    ensures
        forall|host: Seq<char>|
            data.config.peers@[0].endpoint.v4@ == host + ":0"@ ==> cfg.endpoint_v4@ == host,
        forall|host: Seq<char>|
            free_of_brackets(host) && data.config.peers@[0].endpoint.v6@ == "["@ + host + "]:0"@
                ==> cfg.endpoint_v6@ == host,
{
    assert forall|host: Seq<char>|
        data.config.peers@[0].endpoint.v4@ == host + ":0"@ implies cfg.endpoint_v4@ == host by {
        law_v4_endpoint_is_bare(host);
    }
    assert forall|host: Seq<char>|
        free_of_brackets(host) && data.config.peers@[0].endpoint.v6@ == "["@ + host
            + "]:0"@ implies cfg.endpoint_v6@ == host by {
        law_v6_endpoint_is_bare(host);
    }
}

/// An enrollment that starts from the configuration of a registration is sent
/// to the device that the API registered, with the token that it gave.
pub proof fn law_enrollment_goes_to_the_registered_device(
    cfg: Config,
    token: Seq<char>,
    private_der: Seq<u8>,
    data: AccountData,
    flow: EnrollFlow,
    request: ApiRequest,
    body: DeviceUpdate,
)
    requires
        registered_from(cfg, token, private_der, data),
        flow.existing() == cfg,
        flow.sends(EnrollAction::Send(request, body)),
    ensures
        request.url@ == "https://api.cloudflareclient.com/v0a4471/reg/"@ + data.id@,
        header_texts(request.headers@).contains(("authorization"@, "Bearer "@ + token)),
        body.key@ == base64_text(flow.public_der()),
        body.key_type@ == "secp256r1"@,
        body.tun_type@ == "masque"@,
        body.name@ == flow.name(),
{
    law_enrollment_request(
        request,
        body,
        cfg.id@,
        cfg.access_token@,
        flow.public_der(),
        flow.name(),
    );
}

/// A registration that is sent names the model and the locale of its options,
/// each in its place, and shows the token of the options, if there is one.
pub proof fn law_registration_names_its_options(
    flow: RegisterFlow,
    request: ApiRequest,
    body: Registration,
)
    requires
        flow.sends_registration(RegisterAction::Register(request, body)),
    ensures
        request.url@ == "https://api.cloudflareclient.com/v0a4471/reg"@,
        flow.options().model@.len() > 0 ==> body.model@ == flow.options().model@,
        flow.options().model@.len() == 0 ==> body.model@ == "PC"@,
        flow.options().locale@.len() > 0 ==> body.locale@ == flow.options().locale@,
        flow.options().locale@.len() == 0 ==> body.locale@ == "en_US"@,
        forall|value: Seq<char>| #[trigger]
            header_texts(request.headers@).contains(("CF-Access-Jwt-Assertion"@, value)) <==> (
            flow.options().jwt matches Some(jwt) && jwt@ == value && value.len() > 0),
{
    law_registration_request(
        request,
        body,
        flow.options().model@,
        flow.options().locale@,
        opt_text(flow.options().jwt),
    );
}

/// Every event that can happen in a stage is one that a registration or an
/// enrollment takes: any account, any error with a status of three digits, and
/// any answer of the user.
pub proof fn law_flows_take_their_events(data: AccountData, err: ApiError, text: String)
    requires
        100 <= err.status <= 999,
    ensures
        enroll_fits(EnrollStage::Sent, EnrollEvent::Replied(Ok(data))),
        enroll_fits(EnrollStage::Sent, EnrollEvent::Replied(Err(err))),
        enroll_fits(EnrollStage::SentAgain, EnrollEvent::Replied(Ok(data))),
        enroll_fits(EnrollStage::SentAgain, EnrollEvent::Replied(Err(err))),
        enroll_fits(EnrollStage::Asking, EnrollEvent::Answered(text)),
        register_fits(RegisterStage::Asking, RegisterEvent::Answered(text)),
        register_fits(RegisterStage::Enrolling, RegisterEvent::Enrolled(Ok(data))),
        register_fits(RegisterStage::Enrolling, RegisterEvent::Enrolled(Err(err))),
{
}

/// A text that is not there counts as empty, and one that is there as itself.
pub proof fn law_missing_texts_are_empty(text: Seq<char>)
    ensures
        text_or_empty(None).len() == 0,
        text_or_empty(Some(text)) == text,
{
    reveal_strlit("");
}

} // verus!
