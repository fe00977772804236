//! The animal lookup again, written against the JSON-handler trait: the
//! body is parsed once by the shared grammar, and only the object's
//! processing is this handler's own.

use vstd::prelude::*;

use crate::request::{HttpRequest, ReqView};
use crate::response::{spec_json, HttpResponse, RespView};
use crate::service::{JsonRouteHandler, RouteHandler, ServerError};
use crate::services::example_services::{
    spec_animal_json, spec_animal_name, spec_parse_animal, parse_animal_request, status_view,
};

verus! {

/// Answers every request with an empty success.
pub struct HomeHandler;

impl RouteHandler for HomeHandler {
    open spec fn spec_respond(&self, request: ReqView) -> RespView {
        status_view(200)
    }

    fn respond(&self, request: HttpRequest) -> (r: HttpResponse) {
        let r = HttpResponse::new(200);
        proof {
            assert(r@ =~~= status_view(200));
        }
        r
    }
}

/// A lookup request: the identifier of the animal asked for.
pub struct AnimalRequest {
    pub id: u64,
}

/// A lookup result: the animal's name.
pub struct AnimalResponse {
    pub name: String,
}

/// The animal lookup as a JSON handler.
pub struct JsonResponder;

/// The processing of one parsed lookup: a known identifier is answered
/// with its name as a JSON body, an unknown one is not found.
pub open spec fn spec_lookup(id: u64) -> RespView {
    match spec_animal_name(id) {
        Some(name) => spec_json(status_view(200), Some(spec_animal_json(name))),
        None => status_view(404),
    }
}

impl JsonRouteHandler for JsonResponder {
    type RequestObject = AnimalRequest;

    open spec fn spec_parse(body: Seq<char>) -> Option<AnimalRequest> {
        match spec_parse_animal(body) {
            Some(id) => Some(AnimalRequest { id }),
            None => None,
        }
    }

    fn parse(body: &String) -> (r: Option<AnimalRequest>) {
        match parse_animal_request(body.as_str()) {
            Some(id) => Some(AnimalRequest { id }),
            None => None,
        }
    }

    open spec fn spec_process(&self, obj: AnimalRequest) -> RespView {
        spec_lookup(obj.id)
    }

    fn process(&self, body: AnimalRequest) -> (r: HttpResponse) {
        let outcome: Result<AnimalResponse, ServerError> = if body.id == 1 {
            Ok(AnimalResponse { name: "Dog".to_owned() })
        } else if body.id == 2 {
            Ok(AnimalResponse { name: "Cat".to_owned() })
        } else {
            Err(ServerError::Fail)
        };
        match outcome {
            Ok(animal) => {
                let mut s = "{\"name\":\"".to_owned();
                s.append(animal.name.as_str());
                s.append("\"}");
                let base = HttpResponse::new(200);
                proof {
                    assert(base@ =~~= status_view(200));
                }
                base.json(Some(s))
            },
            Err(_) => {
                let r = HttpResponse::new(404);
                proof {
                    assert(r@ =~~= status_view(404));
                }
                r
            },
        }
    }
}

} // verus!
