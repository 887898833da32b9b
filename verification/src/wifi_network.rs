//! A network profile: a named set of WiFi credentials that vouchers are
//! issued against.

use vstd::prelude::*;

use crate::sys;

verus! {

/// One network profile. The credential secret is held in plaintext, matching
/// the stored schema.
#[derive(Debug)]
pub struct WiFiNetwork {
    pub id: String,
    pub name: String,
    pub ssid: String,
    pub password: String,
    pub description: Option<String>,
    pub created_at: i64,
    pub is_active: bool,
}

/// The mathematical model of a [`WiFiNetwork`].
pub struct NetworkModel {
    pub id: Seq<char>,
    pub name: Seq<char>,
    pub ssid: Seq<char>,
    pub password: Seq<char>,
    pub description: Option<Seq<char>>,
    pub created_at: i64,
    pub is_active: bool,
}

impl View for WiFiNetwork {
    type V = NetworkModel;

    open spec fn view(&self) -> NetworkModel {
        NetworkModel {
            id: self.id@,
            name: self.name@,
            ssid: self.ssid@,
            password: self.password@,
            description: self.description.deep_view(),
            created_at: self.created_at,
            is_active: self.is_active,
        }
    }
}

impl DeepView for WiFiNetwork {
    type V = NetworkModel;

    open spec fn deep_view(&self) -> NetworkModel {
        self.view()
    }
}

impl Clone for WiFiNetwork {
    fn clone(&self) -> (r: Self)
        ensures
            r == *self,
    {
        WiFiNetwork {
            id: self.id.clone(),
            name: self.name.clone(),
            ssid: self.ssid.clone(),
            password: self.password.clone(),
            description: match &self.description {
                Some(d) => Some(d.clone()),
                None => None,
            },
            created_at: self.created_at,
            is_active: self.is_active,
        }
    }
}

impl WiFiNetwork {
    /// A fresh, active network profile. The identifier and creation time come
    /// from the environment, so nothing is promised of their values.
    pub fn new(
        name: String,
        ssid: String,
        password: String,
        description: Option<String>,
    ) -> (n: WiFiNetwork)
        ensures
            n@.name == name@,
            n@.ssid == ssid@,
            n@.password == password@,
            n@.description == description.deep_view(),
            n@.is_active,
            n@.id.len() == 36,
    {
        WiFiNetwork {
            id: sys::fresh_id(),
            name,
            ssid,
            password,
            description,
            created_at: sys::now_ts(),
            is_active: true,
        }
    }
}

} // verus!
